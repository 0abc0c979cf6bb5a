//! Signing with a hierarchy: every tree signs the public key of the tree
//! below it, and the last tree signs the message.

use vstd::prelude::*;
use crate::constants::SEED_RANDOMIZER;
use crate::error::LmsError;
use crate::hasher::lemma_digest_len;
use crate::hss::definitions::{
    capacity,
    derive_trees,
    leaf_indices,
    lemma_leaf_indices,
    spec_hss_sign,
    spec_leaf_indices,
    spec_sign_result,
    spec_level_public_key,
    spec_level_sign,
    spec_parse_hss_signature,
    spec_parse_signed_key,
    spec_parse_signed_keys,
    spec_signed_key_rows,
    spec_signed_public_key,
    spec_tree,
    HssPrivateKey,
    HssSignatureView,
    HssSignedPublicKeyView,
};
use crate::hss::parameter::{lemma_encode_decode, LevelParameter};
use crate::hss::rfc_private_key::{RfcPrivateKeyView, SeedAndI};
use crate::hss::seed_derive::SeedDerive;
use crate::lms::definitions::LmsPublicKey;
use crate::lms::signing::LmsSignature;
use crate::util::ustr::{spec_u16str, spec_u32str};

verus! {

/// The public key of a lower tree, signed by the tree above it.
pub struct HssSignedPublicKey {
    pub sig: LmsSignature,
    pub public_key: LmsPublicKey,
}

impl View for HssSignedPublicKey {
    type V = HssSignedPublicKeyView;

    open spec fn view(&self) -> HssSignedPublicKeyView {
        HssSignedPublicKeyView { sig: self.sig@, public_key: self.public_key@ }
    }
}

/// The signed public keys that a vector holds.
pub open spec fn spec_signed_keys(v: Seq<HssSignedPublicKey>) -> Seq<HssSignedPublicKeyView> {
    Seq::new(v.len(), |k: int| v[k]@)
}

/// A hierarchy's signature: for every level but the last, the public key
/// of the tree below and its signature; then the signature of the
/// message by the last tree.
pub struct HssSignature {
    pub signed_public_keys: Vec<HssSignedPublicKey>,
    pub signature: LmsSignature,
}

impl View for HssSignature {
    type V = HssSignatureView;

    open spec fn view(&self) -> HssSignatureView {
        HssSignatureView {
            signed_public_keys: spec_signed_keys(self.signed_public_keys@),
            signature: self.signature@,
        }
    }
}

/// Reads the length of the tree signature at the head of `data` from
/// the type codes in it.
pub fn lms_signature_len(data: &[u8]) -> (r: Option<usize>)
    ensures
        match r {
            Some(len) => crate::lms::definitions::spec_lms_signature_len(data@) == Some(len as nat),
            None => crate::lms::definitions::spec_lms_signature_len(data@) is None,
        },
{
    proof {
        reveal(crate::lms::definitions::spec_lms_signature_len);
    }
    if data.len() < 8 {
        return None;
    }
    let lmots = match crate::lm_ots::parameter::LmotsAlgorithm::from_u32(
        crate::util::ustr::str32u(vstd::slice::slice_subrange(data, 4, 8)),
    ) {
        None => {
            return None;
        },
        Some(x) => x,
    };
    let n: usize = lmots.get_n();
    let p: usize = lmots.get_p() as usize;
    proof {
        lmots.lemma_sizes();
        assert(p * n <= 265 * 32) by (nonlinear_arith)
            requires
                n <= 32,
                p <= 265,
        ;
    }
    let end: usize = 8 + 4 + n + p * n;
    if data.len() < end {
        return None;
    }
    let lms = match crate::lms::parameter::LmsAlgorithm::from_u32(
        crate::util::ustr::str32u(vstd::slice::slice_subrange(data, end - 4, end)),
    ) {
        None => {
            return None;
        },
        Some(x) => x,
    };
    let m: usize = lms.get_m();
    let h: usize = lms.get_h() as usize;
    proof {
        lms.lemma_sizes();
        assert(h * m <= 25 * 32) by (nonlinear_arith)
            requires
                m <= 32,
                h <= 25,
        ;
    }
    Some(end + h * m)
}

/// Reads the signed public key at the head of `data`; with it comes the
/// number of bytes that it takes up.
pub fn parse_signed_key(data: &[u8]) -> (r: Option<(HssSignedPublicKey, usize)>)
    ensures
        match r {
            Some((key, used)) => used <= data@.len() && spec_parse_signed_key(data@) == Some(
                (key@, data@.subrange(used as int, data@.len() as int)),
            ),
            None => spec_parse_signed_key(data@) is None,
        },
{
    proof {
        reveal(crate::lms::definitions::spec_lms_public_key_len);
    }
    let sig_len: usize = match lms_signature_len(data) {
        None => {
            return None;
        },
        Some(x) => x,
    };
    if data.len() < sig_len {
        return None;
    }
    let sig = LmsSignature::from_binary_representation(vstd::slice::slice_subrange(data, 0, sig_len));
    let after = vstd::slice::slice_subrange(data, sig_len, data.len());
    if after.len() < 4 {
        return None;
    }
    let lms = match crate::lms::parameter::LmsAlgorithm::from_u32(
        crate::util::ustr::str32u(vstd::slice::slice_subrange(after, 0, 4)),
    ) {
        None => {
            return None;
        },
        Some(x) => x,
    };
    let key_len: usize = 24 + lms.get_m();
    let sig = match sig {
        None => {
            return None;
        },
        Some(x) => x,
    };
    if after.len() < key_len {
        return None;
    }
    let public_key = match LmsPublicKey::from_binary_representation(
        vstd::slice::slice_subrange(after, 0, key_len),
    ) {
        None => {
            return None;
        },
        Some(x) => x,
    };
    assert(after@.subrange(key_len as int, after@.len() as int) =~= data@.subrange(
        sig_len + key_len,
        data@.len() as int,
    ));
    Some((HssSignedPublicKey { sig, public_key }, sig_len + key_len))
}

/// Reads the `count` signed public keys at the head of `data`; with them
/// comes the number of bytes that they take up.
pub fn parse_signed_keys(data: &[u8], count: u32) -> (r: Option<(Vec<HssSignedPublicKey>, usize)>)
    ensures
        match r {
            Some((keys, used)) => used <= data@.len() && spec_parse_signed_keys(data@, count as nat)
                == Some((spec_signed_keys(keys@), data@.subrange(used as int, data@.len() as int))),
            None => spec_parse_signed_keys(data@, count as nat) is None,
        },
    decreases count,
{
    if count == 0 {
        let keys: Vec<HssSignedPublicKey> = Vec::new();
        assert(spec_signed_keys(keys@) =~= Seq::empty());
        assert(data@.subrange(0, data@.len() as int) =~= data@);
        return Some((keys, 0));
    }
    let (first, used) = match parse_signed_key(data) {
        None => {
            return None;
        },
        Some(x) => x,
    };
    let rest = vstd::slice::slice_subrange(data, used, data.len());
    let (mut keys, more) = match parse_signed_keys(rest, count - 1) {
        None => {
            return None;
        },
        Some(x) => x,
    };
    let ghost others = spec_signed_keys(keys@);
    let ghost head = first@;
    keys.insert(0, first);
    proof {
        assert(spec_signed_keys(keys@) =~= seq![head] + others);
        assert(rest@.subrange(more as int, rest@.len() as int) =~= data@.subrange(
            used + more,
            data@.len() as int,
        ));
    }
    Some((keys, used + more))
}

/// The public key of the tree at level `k + 1`, whose root is `root`,
/// signed by the tree at level `k`; with it comes the root of the tree
/// at level `k`.
fn sign_public_key(
    key: Ghost<RfcPrivateKeyView>,
    n: usize,
    parameters: &[LevelParameter],
    indices: &[u32],
    trees: &[SeedAndI],
    k: usize,
    root: Vec<u8>,
) -> (r: (HssSignedPublicKey, Vec<u8>))
    requires
        key@.wf(),
        n == key@.n(),
        parameters@ == key@.parameters,
        indices@ == spec_leaf_indices(key@.parameters, key@.q as nat),
        trees@.len() == parameters@.len(),
        forall|j: int|
            0 <= j < trees@.len() ==> (#[trigger] trees@[j].seed@, trees@[j].i@) == spec_tree(
                key@.n(),
                key@.seed,
                indices@,
                j as nat,
            ),
        k + 1 < parameters@.len(),
        root@ == spec_level_public_key(key@, indices@, (k + 1) as nat).key,
    ensures
        r.0@ == spec_signed_public_key(key@, indices@, k as nat),
        r.1@ == spec_level_public_key(key@, indices@, k as nat).key,
{
    proof {
        lemma_leaf_indices(key@.parameters, key@.q as nat);
        assert(parameters@[k as int].0.n() == key@.n());
        parameters@[k as int].0.lemma_sizes();
    }
    let ghost tree = (trees@[k as int].seed@, trees@[k as int].i@);
    assert((trees@[k + 1].seed@, trees@[k + 1].i@) == spec_tree(
        key@.n(),
        key@.seed,
        indices@,
        (k + 1) as nat,
    ));
    let public_key = LmsPublicKey {
        lms_parameter: parameters[k + 1].1,
        lmots_parameter: parameters[k + 1].0,
        i: trees[k + 1].i,
        key: root,
    };
    assert(public_key@ == spec_level_public_key(key@, indices@, (k + 1) as nat));
    let mut derive = SeedDerive::new(n, trees[k].seed.as_slice(), &trees[k].i);
    derive.set_q(indices[k]);
    derive.set_j(SEED_RANDOMIZER);
    let randomizer = derive.seed_derive(false);
    proof {
        lemma_digest_len(
            key@.n(),
            tree.1 + spec_u32str(indices@[k as int]) + spec_u16str(SEED_RANDOMIZER) + seq![0xffu8]
                + tree.0,
        );
    }
    let message = public_key.to_binary_representation();
    let (sig, parent) = LmsSignature::sign_with_leaf_and_root(
        parameters[k].0,
        parameters[k].1,
        &trees[k].i,
        trees[k].seed.as_slice(),
        indices[k],
        message.as_slice(),
        randomizer.as_slice(),
    );
    (HssSignedPublicKey { sig, public_key }, parent)
}

impl HssSignature {
    /// The bytes of the signature on the wire.
    pub fn to_binary_representation(&self) -> (r: Vec<u8>)
        ensures
            r@ == self@.serialize(),
    {
        let count: usize = self.signed_public_keys.len();
        let mut r: Vec<u8> = Vec::new();
        r.extend_from_slice(&crate::util::ustr::u32str(#[verifier::truncate] (count as u32)));
        let ghost head = r@;
        let ghost rows = spec_signed_key_rows(self@.signed_public_keys);
        let mut k: usize = 0;
        proof {
            assert(rows.subrange(0, 0).flatten() =~= Seq::<u8>::empty());
            assert(head + Seq::<u8>::empty() =~= head);
        }
        while k < count
            invariant
                k <= count,
                count == self.signed_public_keys@.len(),
                rows == spec_signed_key_rows(self@.signed_public_keys),
                r@ == head + rows.subrange(0, k as int).flatten(),
            decreases count - k,
        {
            let key = &self.signed_public_keys[k];
            let sig = key.sig.to_binary_representation();
            let public_key = key.public_key.to_binary_representation();
            r.extend_from_slice(sig.as_slice());
            r.extend_from_slice(public_key.as_slice());
            proof {
                let row = key@.serialize();
                assert(rows[k as int] == row);
                assert(rows.subrange(0, k + 1) =~= rows.subrange(0, k as int).push(row));
                rows.subrange(0, k as int).lemma_flatten_push(row);
                assert(r@ =~= head + rows.subrange(0, k + 1).flatten());
            }
            k += 1;
        }
        assert(rows.subrange(0, count as int) =~= rows);
        let last = self.signature.to_binary_representation();
        r.extend_from_slice(last.as_slice());
        assert(r@ =~= self@.serialize());
        r
    }

    /// Reads a signature off the wire. `None` where the count of signed
    /// public keys is more than seven, a part does not parse, or the
    /// last signature does not take up the rest of `data`.
    pub fn from_binary_representation(data: &[u8]) -> (r: Option<Self>)
        ensures
            match r {
                Some(signature) => spec_parse_hss_signature(data@) == Some(signature@),
                None => spec_parse_hss_signature(data@) is None,
            },
    {
        if data.len() < 4 {
            return None;
        }
        let count: u32 = crate::util::ustr::str32u(vstd::slice::slice_subrange(data, 0, 4));
        if count > 7 {
            return None;
        }
        let body = vstd::slice::slice_subrange(data, 4, data.len());
        let (signed_public_keys, used) = match parse_signed_keys(body, count) {
            None => {
                return None;
            },
            Some(x) => x,
        };
        let signature = match LmsSignature::from_binary_representation(
            vstd::slice::slice_subrange(body, used, body.len()),
        ) {
            None => {
                return None;
            },
            Some(x) => x,
        };
        Some(HssSignature { signed_public_keys, signature })
    }

    /// Signs `message` under the randomiser `c` with the leaves that the
    /// key's counter points to, and moves the counter on by one.
    ///
    /// Fails, and leaves the key as it was, where the key has made as
    /// many signatures as it can (`KeyExhausted`) or, else, where `c` is
    /// not `n` bytes long (`EntropyFailure`).
    pub fn sign(private_key: &mut HssPrivateKey, message: &[u8], c: &[u8]) -> (r: Result<
        HssSignature,
        LmsError,
    >)
        requires
            old(private_key).wf(),
        ensures
            final(private_key).wf(),
            match r {
                Ok(signature) => spec_sign_result(old(private_key)@, message@, c@) == Ok::<
                    (HssSignatureView, RfcPrivateKeyView),
                    LmsError,
                >((signature@, final(private_key)@)),
                Err(e) => spec_sign_result(old(private_key)@, message@, c@) == Err::<
                    (HssSignatureView, RfcPrivateKeyView),
                    LmsError,
                >(e) && final(private_key)@ == old(private_key)@,
            },
    {
        let ghost key = private_key@;
        let parameters = private_key.private_key.compressed_parameter.to();
        let n: usize = private_key.private_key.get_n();
        let q: u64 = private_key.private_key.q;
        proof {
            lemma_encode_decode(private_key.private_key.compressed_parameter@);
            crate::hss::parameter::lemma_capacity_bound(key.parameters);
        }
        if q >= capacity(parameters.as_slice()) {
            return Err(LmsError::KeyExhausted);
        }
        if c.len() != n {
            return Err(LmsError::EntropyFailure);
        }
        let indices = leaf_indices(parameters.as_slice(), q);
        proof {
            lemma_leaf_indices(key.parameters, key.q as nat);
        }
        let trees = derive_trees(&private_key.private_key, parameters.as_slice(), indices.as_slice());
        let last: usize = parameters.len() - 1;
        proof {
            assert(parameters@[last as int].0.n() == key.n());
            assert((trees@[last as int].seed@, trees@[last as int].i@) == spec_tree(
                key.n(),
                key.seed,
                indices@,
                last as nat,
            ));
        }
        let (signature, bottom) = LmsSignature::sign_with_leaf_and_root(
            parameters[last].0,
            parameters[last].1,
            &trees[last].i,
            trees[last].seed.as_slice(),
            indices[last],
            message,
            c,
        );
        assert(signature@ == spec_level_sign(key, indices@, last as nat, c@, message@));
        let mut root: Vec<u8> = bottom;
        let mut upward: Vec<HssSignedPublicKey> = Vec::new();
        let mut k: usize = last;
        while k > 0
            invariant
                k <= last,
                last + 1 == parameters@.len(),
                key.wf(),
                n == key.n(),
                parameters@ == key.parameters,
                indices@ == spec_leaf_indices(key.parameters, key.q as nat),
                trees@.len() == parameters@.len(),
                forall|j: int|
                    0 <= j < trees@.len() ==> (#[trigger] trees@[j].seed@, trees@[j].i@) == spec_tree(
                        key.n(),
                        key.seed,
                        indices@,
                        j as nat,
                    ),
                root@ == spec_level_public_key(key, indices@, k as nat).key,
                upward@.len() == last - k,
                forall|j: int|
                    0 <= j < upward@.len() ==> (#[trigger] upward@[j])@ == spec_signed_public_key(
                        key,
                        indices@,
                        (last - 1 - j) as nat,
                    ),
            decreases k,
        {
            let (signed, parent) = sign_public_key(
                Ghost(key),
                n,
                parameters.as_slice(),
                indices.as_slice(),
                trees.as_slice(),
                k - 1,
                root,
            );
            upward.push(signed);
            root = parent;
            k -= 1;
        }
        let mut signed_public_keys: Vec<HssSignedPublicKey> = Vec::new();
        while upward.len() > 0
            invariant
                upward@.len() + signed_public_keys@.len() == last,
                forall|j: int|
                    0 <= j < upward@.len() ==> (#[trigger] upward@[j])@ == spec_signed_public_key(
                        key,
                        indices@,
                        (last - 1 - j) as nat,
                    ),
                forall|j: int|
                    0 <= j < signed_public_keys@.len() ==> (#[trigger] signed_public_keys@[j])@
                        == spec_signed_public_key(key, indices@, j as nat),
            decreases upward@.len(),
        {
            match upward.pop() {
                Some(signed) => {
                    signed_public_keys.push(signed);
                },
                None => {},
            }
        }
        private_key.private_key.q = q + 1;
        let r = HssSignature { signed_public_keys, signature };
        assert(r@.signed_public_keys =~= spec_hss_sign(key, message@, c@).signed_public_keys);
        Ok(r)
    }
}

} // verus!
