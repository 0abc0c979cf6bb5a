//! What a tree, its public key and its signatures are, as mathematics on
//! bytes.

use vstd::prelude::*;
use vstd::arithmetic::power2::{lemma_pow2_unfold, pow2};
use crate::constants::{D_INTR, D_LEAF};
use crate::hasher::{digest, lemma_digest_len};
use crate::lm_ots::definitions::{
    lemma_sign_then_recover, spec_parse_signature, spec_private_key, spec_public_key,
    spec_public_key_candidate, spec_sign, IType, LmotsSignatureView,
};
use crate::lm_ots::parameter::LmotsAlgorithm;
use crate::lms::parameter::LmsAlgorithm;
use crate::util::chunks::{
    lemma_chunks_flatten, lemma_flatten_chunks, lemma_flatten_len, spec_chunks, uniform,
};
use crate::util::ustr::{
    lemma_str_of_ustr, lemma_ustr_of_str, spec_str32u, spec_u16str, spec_u32str,
};

verus! {

/// The value of leaf node `r`, which binds the one-time public key
/// `ots_key`.
pub open spec fn spec_leaf(lms: LmsAlgorithm, i: Seq<u8>, r: nat, ots_key: Seq<u8>) -> Seq<u8> {
    digest(lms.m(), i + spec_u32str(r as u32) + spec_u16str(D_LEAF) + ots_key)
}

/// The value of interior node `r` with children `left` and `right`.
pub open spec fn spec_interior(lms: LmsAlgorithm, i: Seq<u8>, r: nat, left: Seq<u8>, right: Seq<u8>) -> Seq<u8> {
    digest(lms.m(), i + spec_u32str(r as u32) + spec_u16str(D_INTR) + left + right)
}

/// The one-time public key at leaf `q` of the tree `(i, seed)`.
pub open spec fn spec_leaf_key(lmots: LmotsAlgorithm, i: Seq<u8>, q: u32, seed: Seq<u8>) -> Seq<u8> {
    spec_public_key(lmots, i, spec_u32str(q), spec_private_key(lmots, i, spec_u32str(q), seed))
}

/// The value of node `r` of the tree `(i, seed)`, where `r` has `levels`
/// levels of the tree below it. The root is node 1; the children of node
/// `r` are `2r` and `2r + 1`; leaf `q` is node `2^h + q`.
pub open spec fn spec_node(
    lmots: LmotsAlgorithm,
    lms: LmsAlgorithm,
    i: Seq<u8>,
    seed: Seq<u8>,
    r: nat,
    levels: nat,
) -> Seq<u8>
    decreases levels,
{
    if levels == 0 {
        spec_leaf(lms, i, r, spec_leaf_key(lmots, i, (r - lms.leaves()) as u32, seed))
    } else {
        spec_interior(
            lms,
            i,
            r,
            spec_node(lmots, lms, i, seed, 2 * r, (levels - 1) as nat),
            spec_node(lmots, lms, i, seed, 2 * r + 1, (levels - 1) as nat),
        )
    }
}

/// The root of the tree `(i, seed)`: its public key.
pub open spec fn spec_root(lmots: LmotsAlgorithm, lms: LmsAlgorithm, i: Seq<u8>, seed: Seq<u8>) -> Seq<u8> {
    spec_node(lmots, lms, i, seed, 1, lms.h())
}

/// The ancestor of node `r` that is `k` levels above it, `r / 2^k`.
pub open spec fn spec_ancestor(r: nat, k: nat) -> nat
    decreases k,
{
    if k == 0 {
        r
    } else {
        spec_ancestor(r, (k - 1) as nat) / 2
    }
}

/// The number of the node that is leaf `q`, `2^h + q`.
pub open spec fn spec_leaf_node(lms: LmsAlgorithm, q: u32) -> nat {
    (lms.leaves() + q) as nat
}

/// The other child of the parent of node `r`.
pub open spec fn spec_sibling(r: nat) -> nat {
    if r % 2 == 0 {
        r + 1
    } else {
        (r - 1) as nat
    }
}

/// The authentication path of leaf `q`: for each level from the leaves
/// up, the sibling of the node on the way from the leaf to the root.
pub open spec fn spec_path(
    lmots: LmotsAlgorithm,
    lms: LmsAlgorithm,
    i: Seq<u8>,
    seed: Seq<u8>,
    q: u32,
) -> Seq<Seq<u8>> {
    Seq::new(
        lms.h(),
        |k: int|
            spec_node(
                lmots,
                lms,
                i,
                seed,
                spec_sibling(spec_ancestor(spec_leaf_node(lms, q), k as nat)),
                k as nat,
            ),
    )
}

/// The value that `node`, taken as the value of node `r`, and the first
/// `k` steps of `path` give to the ancestor `k` levels above `r`.
pub open spec fn spec_fold(
    lms: LmsAlgorithm,
    i: Seq<u8>,
    r: nat,
    node: Seq<u8>,
    path: Seq<Seq<u8>>,
    k: nat,
) -> Seq<u8>
    decreases k,
{
    if k == 0 {
        node
    } else {
        let below = spec_fold(lms, i, r, node, path, (k - 1) as nat);
        let current = spec_ancestor(r, (k - 1) as nat);
        if current % 2 == 1 {
            spec_interior(lms, i, current / 2, path[k - 1], below)
        } else {
            spec_interior(lms, i, current / 2, below, path[k - 1])
        }
    }
}

/// The secret state of one tree: its identifier and seed, and the next
/// leaf that has not signed.
pub struct LmsPrivateKey {
    pub lmots_parameter: LmotsAlgorithm,
    pub lms_parameter: LmsAlgorithm,
    pub i: IType,
    pub seed: Vec<u8>,
    pub q: u32,
}

/// A tree's public key: its parameter sets, its identifier and its root.
pub struct LmsPublicKey {
    pub lms_parameter: LmsAlgorithm,
    pub lmots_parameter: LmotsAlgorithm,
    pub i: IType,
    pub key: Vec<u8>,
}

impl View for LmsPublicKey {
    type V = LmsPublicKeyView;

    open spec fn view(&self) -> LmsPublicKeyView {
        LmsPublicKeyView {
            lms_parameter: self.lms_parameter,
            lmots_parameter: self.lmots_parameter,
            i: self.i@,
            key: self.key@,
        }
    }
}

impl LmsPublicKey {
    /// The bytes of the public key on the wire.
    pub fn to_binary_representation(&self) -> (r: Vec<u8>)
        ensures
            r@ == self@.serialize(),
    {
        let mut r: Vec<u8> = Vec::new();
        r.extend_from_slice(&crate::util::ustr::u32str(self.lms_parameter.get_type()));
        r.extend_from_slice(&crate::util::ustr::u32str(self.lmots_parameter.get_type()));
        r.extend_from_slice(&self.i);
        r.extend_from_slice(self.key.as_slice());
        assert(r@ =~= self@.serialize());
        r
    }

    /// Reads a public key off the wire. `None` where a type code is not
    /// registered or `data` is not exactly as long as a public key of its
    /// type.
    pub fn from_binary_representation(data: &[u8]) -> (r: Option<Self>)
        ensures
            match r {
                Some(key) => spec_parse_lms_public_key(data@) == Some(key@) && key@.wf(),
                None => spec_parse_lms_public_key(data@) is None,
            },
    {
        proof {
            reveal(spec_lms_public_key_len);
            reveal(spec_parse_lms_public_key);
        }
        if data.len() < 8 {
            proof {
                if data@.len() >= 4 {
                    let lms = LmsAlgorithm::spec_from_u32(spec_str32u(data@.subrange(0, 4)));
                    if lms is Some {
                        lms.unwrap().lemma_sizes();
                    }
                }
            }
            return None;
        }
        let lms_parameter = match LmsAlgorithm::from_u32(
            crate::util::ustr::str32u(vstd::slice::slice_subrange(data, 0, 4)),
        ) {
            None => {
                return None;
            },
            Some(x) => x,
        };
        let lmots_parameter = match LmotsAlgorithm::from_u32(
            crate::util::ustr::str32u(vstd::slice::slice_subrange(data, 4, 8)),
        ) {
            None => {
                return None;
            },
            Some(x) => x,
        };
        if data.len() != 24 + lms_parameter.get_m() {
            return None;
        }
        let mut i: IType = [0u8; 16];
        let mut k: usize = 0;
        while k < 16
            invariant
                k <= 16,
                data@.len() >= 24,
                forall|j: int| 0 <= j < k ==> i@[j] == data@[8 + j],
            decreases 16 - k,
        {
            i[k] = data[8 + k];
            k += 1;
        }
        assert(i@ =~= data@.subrange(8, 24));
        let key = vstd::slice::slice_to_vec(vstd::slice::slice_subrange(data, 24, data.len()));
        Some(LmsPublicKey { lms_parameter, lmots_parameter, i, key })
    }
}

/// A tree's public key.
pub struct LmsPublicKeyView {
    pub lms_parameter: LmsAlgorithm,
    pub lmots_parameter: LmotsAlgorithm,
    pub i: Seq<u8>,
    pub key: Seq<u8>,
}

/// A signature under a tree: the leaf that signed, its one-time
/// signature, and the authentication path of the leaf.
pub struct LmsSignatureView {
    pub q: u32,
    pub lmots_signature: LmotsSignatureView,
    pub lms_parameter: LmsAlgorithm,
    pub path: Seq<Seq<u8>>,
}

impl LmsPublicKeyView {
    /// The identifier and the root have their lengths.
    pub open spec fn wf(self) -> bool {
        &&& self.i.len() == 16
        &&& self.key.len() == self.lms_parameter.m()
    }

    /// The bytes of the public key on the wire: the two type codes, the
    /// identifier and the root.
    pub open spec fn serialize(self) -> Seq<u8> {
        spec_u32str(self.lms_parameter.type_code()) + spec_u32str(self.lmots_parameter.type_code())
            + self.i + self.key
    }
}

/// The length of the public key that `data` opens with, as the type code
/// at its head gives it.
#[verifier::opaque]
pub open spec fn spec_lms_public_key_len(data: Seq<u8>) -> Option<nat> {
    if data.len() < 4 {
        None
    } else {
        match LmsAlgorithm::spec_from_u32(spec_str32u(data.subrange(0, 4))) {
            None => None,
            Some(lms) => Some(lms.public_key_len()),
        }
    }
}

/// The public key that `data` encodes: `data` opens with two registered
/// type codes and is exactly as long as a public key of that type.
#[verifier::opaque]
pub open spec fn spec_parse_lms_public_key(data: Seq<u8>) -> Option<LmsPublicKeyView> {
    match spec_lms_public_key_len(data) {
        None => None,
        Some(len) => if data.len() != len {
            None
        } else {
            match LmotsAlgorithm::spec_from_u32(spec_str32u(data.subrange(4, 8))) {
                None => None,
                Some(lmots) => Some(
                    LmsPublicKeyView {
                        lms_parameter: LmsAlgorithm::spec_from_u32(
                            spec_str32u(data.subrange(0, 4)),
                        ).unwrap(),
                        lmots_parameter: lmots,
                        i: data.subrange(8, 24),
                        key: data.subrange(24, data.len() as int),
                    },
                ),
            }
        },
    }
}

/// Parsing the wire form of a public key gives the key back.
pub proof fn lemma_parse_serialize_public_key(v: LmsPublicKeyView)
    requires
        v.wf(),
    ensures
        v.serialize().len() == v.lms_parameter.public_key_len(),
        spec_lms_public_key_len(v.serialize()) == Some(v.lms_parameter.public_key_len()),
        spec_parse_lms_public_key(v.serialize()) == Some(v),
{
    reveal(spec_lms_public_key_len);
    reveal(spec_parse_lms_public_key);
    let s = v.serialize();
    lemma_str_of_ustr(0, v.lms_parameter.type_code(), 0);
    lemma_str_of_ustr(0, v.lmots_parameter.type_code(), 0);
    v.lms_parameter.lemma_type_code();
    v.lmots_parameter.lemma_type_code();
    assert(s.subrange(0, 4) =~= spec_u32str(v.lms_parameter.type_code()));
    assert(s.subrange(4, 8) =~= spec_u32str(v.lmots_parameter.type_code()));
    assert(s.subrange(8, 24) =~= v.i);
    assert(s.subrange(24, s.len() as int) =~= v.key);
}

/// Whatever parses as a public key is the wire form of that key, and of
/// no other.
pub proof fn lemma_serialize_parse_public_key(data: Seq<u8>)
    requires
        spec_parse_lms_public_key(data) is Some,
    ensures
        spec_parse_lms_public_key(data).unwrap().wf(),
        spec_parse_lms_public_key(data).unwrap().serialize() == data,
{
    reveal(spec_lms_public_key_len);
    reveal(spec_parse_lms_public_key);
    LmsAlgorithm::lemma_from_u32(spec_str32u(data.subrange(0, 4)));
    LmotsAlgorithm::lemma_from_u32(spec_str32u(data.subrange(4, 8)));
    lemma_ustr_of_str(data.subrange(0, 4));
    lemma_ustr_of_str(data.subrange(4, 8));
    assert(data.subrange(0, 4) + data.subrange(4, 8) + data.subrange(8, 24) + data.subrange(
        24,
        data.len() as int,
    ) =~= data);
}

/// The length that the type code at the head of a byte string announces
/// stays the same however the string goes on.
pub proof fn lemma_lms_public_key_len_prefix(a: Seq<u8>, b: Seq<u8>)
    requires
        a.is_prefix_of(b),
        spec_lms_public_key_len(a) is Some,
    ensures
        spec_lms_public_key_len(b) == spec_lms_public_key_len(a),
{
    reveal(spec_lms_public_key_len);
    assert(a.subrange(0, 4) =~= b.subrange(0, 4));
}

/// A public key cut short or run long no longer parses.
pub proof fn lemma_parse_public_key_rejects_other_lengths(v: LmsPublicKeyView, data: Seq<u8>)
    requires
        v.wf(),
        data.is_prefix_of(v.serialize()) || v.serialize().is_prefix_of(data),
        data != v.serialize(),
    ensures
        spec_parse_lms_public_key(data) is None,
{
    reveal(spec_lms_public_key_len);
    reveal(spec_parse_lms_public_key);
    let s = v.serialize();
    lemma_parse_serialize_public_key(v);
    if data.len() >= 4 {
        assert(data.subrange(0, 4) =~= s.subrange(0, 4));
        if data.len() == s.len() {
            assert(data =~= s);
        }
    }
}

impl LmsSignatureView {
    /// The one-time signature is well formed, the leaf exists, and the
    /// path has one node per level.
    pub open spec fn wf(self) -> bool {
        &&& self.lmots_signature.wf()
        &&& self.q < self.lms_parameter.leaves()
        &&& self.path.len() == self.lms_parameter.h()
        &&& uniform(self.path, self.lms_parameter.m())
    }
}

impl LmsSignatureView {
    /// The bytes of the signature on the wire: the leaf index, the
    /// one-time signature, the tree's type code and the path.
    pub open spec fn serialize(self) -> Seq<u8> {
        spec_u32str(self.q) + self.lmots_signature.serialize() + spec_u32str(
            self.lms_parameter.type_code(),
        ) + self.path.flatten()
    }

    /// The length of the wire form.
    pub open spec fn serialized_len(self) -> nat {
        8 + self.lmots_signature.parameter.signature_len() + self.lms_parameter.path_len()
    }
}

/// The one-time parameter set that the signature at the head of `data`
/// names.
pub open spec fn spec_lms_signature_lmots(data: Seq<u8>) -> Option<LmotsAlgorithm> {
    if data.len() < 8 {
        None
    } else {
        LmotsAlgorithm::spec_from_u32(spec_str32u(data.subrange(4, 8)))
    }
}

/// The tree parameter set that the signature at the head of `data` names.
pub open spec fn spec_lms_signature_lms(data: Seq<u8>) -> Option<LmsAlgorithm> {
    match spec_lms_signature_lmots(data) {
        None => None,
        Some(lmots) => {
            let end = 8 + lmots.signature_len();
            if data.len() < end {
                None
            } else {
                LmsAlgorithm::spec_from_u32(spec_str32u(data.subrange(end - 4, end as int)))
            }
        },
    }
}

/// The length of the signature that `data` opens with, as the two type
/// codes in it give it.
#[verifier::opaque]
pub open spec fn spec_lms_signature_len(data: Seq<u8>) -> Option<nat> {
    match spec_lms_signature_lms(data) {
        None => None,
        Some(lms) => Some(
            8 + spec_lms_signature_lmots(data).unwrap().signature_len() + lms.path_len(),
        ),
    }
}

/// The signature that `data` encodes: its type codes are registered, it
/// is exactly as long as they say, and its leaf exists.
#[verifier::opaque]
pub open spec fn spec_parse_lms_signature(data: Seq<u8>) -> Option<LmsSignatureView> {
    match spec_lms_signature_len(data) {
        None => None,
        Some(len) => {
            let lmots = spec_lms_signature_lmots(data).unwrap();
            let lms = spec_lms_signature_lms(data).unwrap();
            let end = 8 + lmots.signature_len();
            let q = spec_str32u(data.subrange(0, 4));
            if data.len() != len || q >= lms.leaves() {
                None
            } else {
                Some(
                    LmsSignatureView {
                        q,
                        lmots_signature: spec_parse_signature(data.subrange(4, end - 4)).unwrap(),
                        lms_parameter: lms,
                        path: spec_chunks(data.subrange(end as int, data.len() as int), lms.m(), lms.h()),
                    },
                )
            }
        },
    }
}

/// Parsing the wire form of a signature gives the signature back.
pub proof fn lemma_parse_serialize_lms_signature(v: LmsSignatureView)
    requires
        v.wf(),
    ensures
        v.serialize().len() == v.serialized_len(),
        spec_lms_signature_len(v.serialize()) == Some(v.serialized_len()),
        spec_parse_lms_signature(v.serialize()) == Some(v),
{
    reveal(spec_lms_signature_len);
    reveal(spec_parse_lms_signature);
    let s = v.serialize();
    let ots = v.lmots_signature;
    let lmots = ots.parameter;
    let lms = v.lms_parameter;
    let end = 8 + lmots.signature_len();
    crate::lm_ots::definitions::lemma_serialize_len(ots);
    crate::lm_ots::definitions::lemma_parse_serialize(ots);
    lms.lemma_sizes();
    lemma_flatten_len(v.path, lms.m());
    lemma_str_of_ustr(0, v.q, 0);
    lemma_str_of_ustr(0, lms.type_code(), 0);
    lemma_str_of_ustr(0, lmots.type_code(), 0);
    lms.lemma_type_code();
    lmots.lemma_type_code();
    assert(s.subrange(0, 4) =~= spec_u32str(v.q));
    assert(s.subrange(4, end - 4) =~= ots.serialize());
    assert(s.subrange(4, 8) =~= ots.serialize().subrange(0, 4));
    assert(ots.serialize().subrange(0, 4) =~= spec_u32str(lmots.type_code()));
    assert(s.subrange(end - 4, end as int) =~= spec_u32str(lms.type_code()));
    assert(s.subrange(end as int, s.len() as int) =~= v.path.flatten());
    lemma_chunks_flatten(v.path, lms.m());
}

/// Whatever parses as a signature is the wire form of that signature, and
/// of no other.
pub proof fn lemma_serialize_parse_lms_signature(data: Seq<u8>)
    requires
        spec_parse_lms_signature(data) is Some,
    ensures
        spec_parse_lms_signature(data).unwrap().wf(),
        spec_parse_lms_signature(data).unwrap().serialize() == data,
{
    reveal(spec_lms_signature_len);
    let lmots = spec_lms_signature_lmots(data).unwrap();
    let lms = spec_lms_signature_lms(data).unwrap();
    lemma_lms_signature_fields(data);
    let end: int = (8 + lmots.signature_len()) as int;
    let inner = data.subrange(4, end - 4);
    assert(inner.subrange(0, 4) =~= data.subrange(4, 8));
    lemma_parts_one_time(inner, data.subrange(4, 8), lmots);
    lemma_ustr_of_str(data.subrange(0, 4));
    lemma_parts_code(data.subrange(end - 4, end), lms);
    lemma_parts_path(data.subrange(end, data.len() as int), lms);
    lemma_four_parts(data, end);
}

/// The fields of a parsed signature, each as the part of the bytes that
/// it was read from.
proof fn lemma_lms_signature_fields(data: Seq<u8>)
    requires
        spec_parse_lms_signature(data) is Some,
    ensures
        ({
            let v = spec_parse_lms_signature(data).unwrap();
            let lmots = spec_lms_signature_lmots(data).unwrap();
            let lms = spec_lms_signature_lms(data).unwrap();
            let end = 8 + lmots.signature_len();
            &&& spec_lms_signature_lmots(data) is Some
            &&& spec_lms_signature_lms(data) is Some
            &&& data.len() == end + lms.path_len()
            &&& v.lms_parameter == lms
            &&& v.q == spec_str32u(data.subrange(0, 4))
            &&& v.q < lms.leaves()
            &&& v.lmots_signature == spec_parse_signature(data.subrange(4, end - 4)).unwrap()
            &&& v.path == spec_chunks(data.subrange(end as int, data.len() as int), lms.m(), lms.h())
            &&& LmotsAlgorithm::spec_from_u32(spec_str32u(data.subrange(4, 8))) == Some(lmots)
            &&& LmsAlgorithm::spec_from_u32(spec_str32u(data.subrange(end - 4, end as int))) == Some(
                lms,
            )
        }),
{
    reveal(spec_lms_signature_len);
    reveal(spec_parse_lms_signature);
}

/// A byte string is the concatenation of its four parts.
proof fn lemma_four_parts(data: Seq<u8>, end: int)
    requires
        8 <= end <= data.len(),
    ensures
        data.subrange(0, 4) + data.subrange(4, end - 4) + data.subrange(end - 4, end) + data.subrange(
            end,
            data.len() as int,
        ) == data,
{
    assert(data.subrange(0, 4) + data.subrange(4, end - 4) + data.subrange(end - 4, end)
        + data.subrange(end, data.len() as int) =~= data);
}

/// Bytes as long as a one-time signature, under its type code, parse as
/// one and are its wire form.
proof fn lemma_parts_one_time(inner: Seq<u8>, code: Seq<u8>, lmots: LmotsAlgorithm)
    requires
        inner.len() == lmots.signature_len(),
        inner.subrange(0, 4) == code,
        LmotsAlgorithm::spec_from_u32(spec_str32u(code)) == Some(lmots),
    ensures
        spec_parse_signature(inner) is Some,
        spec_parse_signature(inner).unwrap().wf(),
        spec_parse_signature(inner).unwrap().parameter == lmots,
        spec_parse_signature(inner).unwrap().serialize() == inner,
{
    crate::lm_ots::definitions::lemma_serialize_parse(inner);
}

/// Four bytes that name a tree parameter set are its type code.
proof fn lemma_parts_code(code: Seq<u8>, lms: LmsAlgorithm)
    requires
        code.len() == 4,
        LmsAlgorithm::spec_from_u32(spec_str32u(code)) == Some(lms),
    ensures
        spec_u32str(lms.type_code()) == code,
{
    LmsAlgorithm::lemma_from_u32(spec_str32u(code));
    lemma_ustr_of_str(code);
}

/// Bytes as long as a path split into the nodes of a path.
proof fn lemma_parts_path(rest: Seq<u8>, lms: LmsAlgorithm)
    requires
        rest.len() == lms.path_len(),
    ensures
        spec_chunks(rest, lms.m(), lms.h()).len() == lms.h(),
        uniform(spec_chunks(rest, lms.m(), lms.h()), lms.m()),
        spec_chunks(rest, lms.m(), lms.h()).flatten() == rest,
{
    lms.lemma_sizes();
    lemma_flatten_chunks(rest, lms.m(), lms.h());
    assert(rest.subrange(0, (lms.h() * lms.m()) as int) =~= rest);
}

/// The length that the type codes at the head of a byte string announce
/// stays the same however the string goes on.
pub proof fn lemma_lms_signature_len_prefix(a: Seq<u8>, b: Seq<u8>)
    requires
        a.is_prefix_of(b),
        spec_lms_signature_len(a) is Some,
    ensures
        spec_lms_signature_len(b) == spec_lms_signature_len(a),
{
    reveal(spec_lms_signature_len);
    reveal(spec_parse_lms_signature);
    assert(a.subrange(4, 8) =~= b.subrange(4, 8));
    let lmots = spec_lms_signature_lmots(a).unwrap();
    let end = 8 + lmots.signature_len();
    assert(a.subrange(end - 4, end as int) =~= b.subrange(end - 4, end as int));
}

/// What parses as a signature is as long as its type codes announce.
pub proof fn lemma_parse_lms_signature_len(data: Seq<u8>)
    requires
        spec_parse_lms_signature(data) is Some,
    ensures
        spec_lms_signature_len(data) == Some(data.len()),
{
    reveal(spec_lms_signature_len);
    reveal(spec_parse_lms_signature);
}

/// A signature cut short or run long no longer parses.
pub proof fn lemma_parse_lms_signature_rejects_other_lengths(v: LmsSignatureView, data: Seq<u8>)
    requires
        v.wf(),
        data.is_prefix_of(v.serialize()) || v.serialize().is_prefix_of(data),
        data != v.serialize(),
    ensures
        spec_parse_lms_signature(data) is None,
{
    let s = v.serialize();
    lemma_parse_serialize_lms_signature(v);
    if data.len() == s.len() {
        assert(data =~= s);
    }
    if spec_parse_lms_signature(data) is Some {
        lemma_parse_lms_signature_len(data);
        if data.is_prefix_of(s) {
            lemma_lms_signature_len_prefix(data, s);
        } else {
            lemma_lms_signature_len_prefix(s, data);
        }
    }
}

/// The public key of the tree `(i, seed)`.
pub open spec fn spec_lms_public_key(
    lmots: LmotsAlgorithm,
    lms: LmsAlgorithm,
    i: Seq<u8>,
    seed: Seq<u8>,
) -> LmsPublicKeyView {
    LmsPublicKeyView { lms_parameter: lms, lmots_parameter: lmots, i, key: spec_root(lmots, lms, i, seed) }
}

/// The signature of `message` by leaf `q` of the tree `(i, seed)`, under
/// the randomiser `c`.
pub open spec fn spec_lms_sign(
    lmots: LmotsAlgorithm,
    lms: LmsAlgorithm,
    i: Seq<u8>,
    seed: Seq<u8>,
    q: u32,
    c: Seq<u8>,
    message: Seq<u8>,
) -> LmsSignatureView {
    LmsSignatureView {
        q,
        lmots_signature: spec_sign(
            lmots,
            i,
            spec_u32str(q),
            spec_private_key(lmots, i, spec_u32str(q), seed),
            c,
            message,
        ),
        lms_parameter: lms,
        path: spec_path(lmots, lms, i, seed, q),
    }
}

/// The root that a signature of `message` would belong to in a tree with
/// identifier `i`.
pub open spec fn spec_root_candidate(signature: LmsSignatureView, i: Seq<u8>, message: Seq<u8>) -> Seq<u8> {
    let lms = signature.lms_parameter;
    let r = spec_leaf_node(lms, signature.q);
    spec_fold(
        lms,
        i,
        r,
        spec_leaf(
            lms,
            i,
            r,
            spec_public_key_candidate(i, spec_u32str(signature.q), signature.lmots_signature, message),
        ),
        signature.path,
        lms.h(),
    )
}

/// Whether `signature` signs `message` under `public_key`: the signature
/// is well formed (its leaf exists and its path has one node per level),
/// both name the same parameter sets, and the root recovered from the
/// signature is the public key.
pub open spec fn spec_lms_verify(
    signature: LmsSignatureView,
    public_key: LmsPublicKeyView,
    message: Seq<u8>,
) -> bool {
    &&& signature.wf()
    &&& signature.lms_parameter == public_key.lms_parameter
    &&& signature.lmots_signature.parameter == public_key.lmots_parameter
    &&& spec_root_candidate(signature, public_key.i, message) == public_key.key
}

/// Every node of a tree is `m` bytes long.
pub proof fn lemma_node_len(
    lmots: LmotsAlgorithm,
    lms: LmsAlgorithm,
    i: Seq<u8>,
    seed: Seq<u8>,
    r: nat,
    levels: nat,
)
    ensures
        spec_node(lmots, lms, i, seed, r, levels).len() == lms.m(),
{
    lms.lemma_sizes();
    if levels == 0 {
        lemma_digest_len(
            lms.m(),
            i + spec_u32str(r as u32) + spec_u16str(D_LEAF) + spec_leaf_key(
                lmots,
                i,
                (r - lms.leaves()) as u32,
                seed,
            ),
        );
    } else {
        lemma_digest_len(
            lms.m(),
            i + spec_u32str(r as u32) + spec_u16str(D_INTR) + spec_node(
                lmots,
                lms,
                i,
                seed,
                2 * r,
                (levels - 1) as nat,
            ) + spec_node(lmots, lms, i, seed, 2 * r + 1, (levels - 1) as nat),
        );
    }
}

/// A tree's signatures are well formed wherever the leaf exists and the
/// randomiser is `n` bytes long.
pub proof fn lemma_lms_sign_wf(
    lmots: LmotsAlgorithm,
    lms: LmsAlgorithm,
    i: Seq<u8>,
    seed: Seq<u8>,
    q: u32,
    c: Seq<u8>,
    message: Seq<u8>,
)
    requires
        q < lms.leaves(),
        c.len() == lmots.n(),
    ensures
        spec_lms_sign(lmots, lms, i, seed, q, c, message).wf(),
{
    let signature = spec_lms_sign(lmots, lms, i, seed, q, c, message);
    crate::lm_ots::definitions::lemma_sign_wf(lmots, i, spec_u32str(q), seed, c, message);
    assert forall|k: int| 0 <= k < signature.path.len() implies (#[trigger] signature.path[k]).len()
        == lms.m() by {
        lemma_node_len(
            lmots,
            lms,
            i,
            seed,
            spec_sibling(spec_ancestor(spec_leaf_node(lms, q), k as nat)),
            k as nat,
        );
    }
}

/// The ancestor `k` levels above node `r` is node `r / 2^k`.
pub proof fn theorem_ancestor_is_quotient(r: nat, k: nat)
    ensures
        spec_ancestor(r, k) == r / pow2(k),
    decreases k,
{
    vstd::arithmetic::power2::lemma2_to64();
    if k > 0 {
        theorem_ancestor_is_quotient(r, (k - 1) as nat);
        lemma_pow2_unfold(k);
        vstd::arithmetic::power2::lemma_pow2_pos((k - 1) as nat);
        let below = pow2((k - 1) as nat) as int;
        vstd::arithmetic::div_mod::lemma_div_denominator(r as int, below, 2);
        assert(pow2(k) == below * 2);
        assert(spec_ancestor(r, (k - 1) as nat) == r as int / below);
        assert(spec_ancestor(r, k) == (r as int / below) / 2);
        assert((r as int / below) / 2 == r as int / (below * 2));
        assert(r as int / (below * 2) == r as int / (pow2(k) as int));
        assert(spec_ancestor(r, k) == r / pow2(k));
    } else {
        assert(pow2(0) == 1);
        assert(r as int / 1 == r);
        assert(spec_ancestor(r, k) == r / pow2(k));
    }
}

/// The sibling of a node is the node whose number differs in the lowest
/// bit.
pub proof fn theorem_sibling_is_xor(r: u32)
    ensures
        spec_sibling(r as nat) == r ^ 1,
{
    assert(r % 2 == 0 ==> r ^ 1 == r + 1) by (bit_vector);
    assert(r % 2 == 1 ==> r ^ 1 == r - 1) by (bit_vector);
}

/// The row of nodes `levels` levels above the leaves starts at a node
/// number that is at most the number of leaves, and is half as long as
/// the row below it.
pub proof fn lemma_row_bound(lms: LmsAlgorithm, levels: nat)
    requires
        levels <= lms.h(),
    ensures
        1 <= pow2((lms.h() - levels) as nat) <= lms.leaves() <= 0x200_0000,
        levels > 0 ==> pow2((lms.h() - levels + 1) as nat) == 2 * pow2((lms.h() - levels) as nat),
        levels == 0 ==> pow2((lms.h() - levels) as nat) == lms.leaves(),
{
    lms.lemma_sizes();
    vstd::arithmetic::power2::lemma_pow2_pos((lms.h() - levels) as nat);
    if levels > 0 {
        vstd::arithmetic::power2::lemma_pow2_strictly_increases((lms.h() - levels) as nat, lms.h());
        lemma_pow2_unfold((lms.h() - levels + 1) as nat);
    }
}

/// A node `k` levels above the leaves lies in the row of `2^(h - k)`
/// nodes that starts at node `2^(h - k)`.
pub proof fn lemma_ancestor_range(lms: LmsAlgorithm, r: nat, k: nat)
    requires
        lms.leaves() <= r < 2 * lms.leaves(),
        k <= lms.h(),
    ensures
        pow2((lms.h() - k) as nat) <= spec_ancestor(r, k) < 2 * pow2((lms.h() - k) as nat),
    decreases k,
{
    lms.lemma_sizes();
    if k > 0 {
        lemma_ancestor_range(lms, r, (k - 1) as nat);
        lemma_pow2_unfold((lms.h() - k + 1) as nat);
    }
}

/// Folding a leaf's value with its authentication path climbs the tree:
/// after `k` steps the fold holds the value of the leaf's ancestor `k`
/// levels up.
pub proof fn lemma_fold_path(
    lmots: LmotsAlgorithm,
    lms: LmsAlgorithm,
    i: Seq<u8>,
    seed: Seq<u8>,
    q: u32,
    k: nat,
)
    requires
        q < lms.leaves(),
        k <= lms.h(),
    ensures
        spec_fold(
            lms,
            i,
            spec_leaf_node(lms, q),
            spec_node(lmots, lms, i, seed, spec_leaf_node(lms, q), 0),
            spec_path(lmots, lms, i, seed, q),
            k,
        ) == spec_node(lmots, lms, i, seed, spec_ancestor(spec_leaf_node(lms, q), k), k),
    decreases k,
{
    if k > 0 {
        lemma_fold_path(lmots, lms, i, seed, q, (k - 1) as nat);
        let r = spec_leaf_node(lms, q);
        let current = spec_ancestor(r, (k - 1) as nat);
        let parent = spec_ancestor(r, k);
        lemma_ancestor_range(lms, r, (k - 1) as nat);
        assert(parent == current / 2);
        if current % 2 == 1 {
            assert(2 * parent + 1 == current);
            assert(spec_sibling(current) == 2 * parent);
        } else {
            assert(2 * parent == current);
            assert(spec_sibling(current) == 2 * parent + 1);
        }
    }
}

/// The ancestor of a leaf `h` levels up is the root.
pub proof fn lemma_ancestor_root(lms: LmsAlgorithm, r: nat)
    requires
        lms.leaves() <= r < 2 * lms.leaves(),
    ensures
        spec_ancestor(r, lms.h()) == 1,
{
    lemma_ancestor_range(lms, r, lms.h());
    vstd::arithmetic::power2::lemma2_to64();
}

/// Every signature that a tree makes with a leaf it has verifies under
/// the tree's public key.
pub proof fn lemma_lms_sign_then_verify(
    lmots: LmotsAlgorithm,
    lms: LmsAlgorithm,
    i: Seq<u8>,
    seed: Seq<u8>,
    q: u32,
    c: Seq<u8>,
    message: Seq<u8>,
)
    requires
        q < lms.leaves(),
        c.len() == lmots.n(),
    ensures
        spec_lms_verify(
            spec_lms_sign(lmots, lms, i, seed, q, c, message),
            spec_lms_public_key(lmots, lms, i, seed),
            message,
        ),
{
    let r = spec_leaf_node(lms, q);
    let key = spec_private_key(lmots, i, spec_u32str(q), seed);
    lemma_lms_sign_wf(lmots, lms, i, seed, q, c, message);
    lemma_sign_then_recover(lmots, i, spec_u32str(q), key, c, message);
    lemma_fold_path(lmots, lms, i, seed, q, lms.h());
    lemma_ancestor_root(lms, r);
    assert((r - lms.leaves()) as u32 == q);
}

} // verus!
