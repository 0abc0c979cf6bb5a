//! What a hierarchy's keys and signatures are, as mathematics on bytes.

use vstd::prelude::*;
use crate::hasher::lemma_digest_len;
use crate::hss::parameter::{
    lemma_capacity_bound,
    spec_capacity,
    spec_total_height,
    valid_parameters,
    LevelParameter,
};
use crate::error::LmsError;
use crate::hss::rfc_private_key::{
    generate_child_seed_I_value, RfcPrivateKey, RfcPrivateKeyView, SeedAndI,
};
use crate::hss::seed_derive::{
    spec_child_i, spec_child_seed, spec_inner_randomizer, spec_top_i, spec_top_seed,
};
use crate::lms::definitions::{
    lemma_lms_sign_then_verify, spec_lms_public_key, spec_lms_public_key_len, spec_lms_sign,
    spec_lms_signature_len, spec_lms_verify, spec_parse_lms_public_key, spec_parse_lms_signature,
    LmsPublicKey, LmsPublicKeyView, LmsSignatureView,
};
use crate::util::ustr::{spec_str32u, spec_u16str, spec_u32str};

verus! {

/// The leaf that signs at each level when the key makes signature number
/// `q`: the digits of `q` in the mixed radix of the levels' leaf counts,
/// the top level first.
pub open spec fn spec_leaf_indices(parameters: Seq<LevelParameter>, q: nat) -> Seq<u32>
    decreases parameters.len(),
{
    if parameters.len() == 0 {
        Seq::empty()
    } else {
        let leaves = parameters.last().1.leaves();
        spec_leaf_indices(parameters.drop_last(), q / leaves).push((q % leaves) as u32)
    }
}

/// The seed and the identifier of the tree at level `k` on the way down
/// the leaves `indices`: the top tree comes from the root seed, every
/// other tree from the tree above it and the leaf that signs it.
pub open spec fn spec_tree(n: nat, root_seed: Seq<u8>, indices: Seq<u32>, k: nat) -> (Seq<u8>, Seq<u8>)
    decreases k,
{
    if k == 0 {
        (spec_top_seed(n, root_seed), spec_top_i(n, root_seed))
    } else {
        let parent = spec_tree(n, root_seed, indices, (k - 1) as nat);
        (
            spec_child_seed(n, parent.1, indices[k - 1], parent.0),
            spec_child_i(n, parent.1, indices[k - 1], parent.0),
        )
    }
}

/// A hierarchy's public key: the number of levels and the public key of
/// the top tree.
pub struct HssPublicKeyView {
    pub level: u32,
    pub public_key: LmsPublicKeyView,
}

/// The public key of a lower tree, signed by the tree above it.
pub struct HssSignedPublicKeyView {
    pub sig: LmsSignatureView,
    pub public_key: LmsPublicKeyView,
}

/// A hierarchy's signature: for every level but the last, the public key
/// of the tree below and its signature; then the signature of the
/// message by the last tree.
pub struct HssSignatureView {
    pub signed_public_keys: Seq<HssSignedPublicKeyView>,
    pub signature: LmsSignatureView,
}

impl HssPublicKeyView {
    /// There are between one and eight levels, and the top tree's public
    /// key is well formed.
    pub open spec fn wf(self) -> bool {
        &&& 1 <= self.level <= 8
        &&& self.public_key.wf()
    }

    /// The bytes of the public key on the wire: the number of levels and
    /// the public key of the top tree.
    pub open spec fn serialize(self) -> Seq<u8> {
        spec_u32str(self.level) + self.public_key.serialize()
    }
}

/// The public key that `data` encodes: between one and eight levels, and
/// a public key of the top tree that takes up the rest of `data`.
pub open spec fn spec_parse_hss_public_key(data: Seq<u8>) -> Option<HssPublicKeyView> {
    if data.len() < 4 {
        None
    } else {
        let level = spec_str32u(data.subrange(0, 4));
        match spec_parse_lms_public_key(data.subrange(4, data.len() as int)) {
            None => None,
            Some(public_key) => if 1 <= level <= 8 {
                Some(HssPublicKeyView { level, public_key })
            } else {
                None
            },
        }
    }
}

impl HssSignedPublicKeyView {
    /// The signature and the public key are well formed.
    pub open spec fn wf(self) -> bool {
        self.sig.wf() && self.public_key.wf()
    }

    /// The bytes on the wire: the signature, then the public key.
    pub open spec fn serialize(self) -> Seq<u8> {
        self.sig.serialize() + self.public_key.serialize()
    }
}

/// The wire forms of signed public keys, one row each.
pub open spec fn spec_signed_key_rows(keys: Seq<HssSignedPublicKeyView>) -> Seq<Seq<u8>> {
    Seq::new(keys.len(), |k: int| keys[k].serialize())
}

impl HssSignatureView {
    /// There are at most seven signed public keys, and every part is well
    /// formed.
    pub open spec fn wf(self) -> bool {
        &&& self.signed_public_keys.len() <= 7
        &&& forall|k: int|
            0 <= k < self.signed_public_keys.len() ==> (#[trigger] self.signed_public_keys[k]).wf()
        &&& self.signature.wf()
    }

    /// The bytes of the signature on the wire: the number of signed
    /// public keys, the signed public keys from the top down, and the
    /// signature of the message.
    pub open spec fn serialize(self) -> Seq<u8> {
        spec_u32str(self.signed_public_keys.len() as u32) + spec_signed_key_rows(
            self.signed_public_keys,
        ).flatten() + self.signature.serialize()
    }
}

/// The signed public key at the head of `data`, and the bytes after it.
pub open spec fn spec_parse_signed_key(data: Seq<u8>) -> Option<(HssSignedPublicKeyView, Seq<u8>)> {
    match spec_lms_signature_len(data) {
        None => None,
        Some(sig_len) => if data.len() < sig_len {
            None
        } else {
            let after = data.subrange(sig_len as int, data.len() as int);
            match (
                spec_parse_lms_signature(data.subrange(0, sig_len as int)),
                spec_lms_public_key_len(after),
            ) {
                (Some(sig), Some(key_len)) => if after.len() < key_len {
                    None
                } else {
                    match spec_parse_lms_public_key(after.subrange(0, key_len as int)) {
                        None => None,
                        Some(public_key) => Some(
                            (
                                HssSignedPublicKeyView { sig, public_key },
                                after.subrange(key_len as int, after.len() as int),
                            ),
                        ),
                    }
                },
                _ => None,
            }
        },
    }
}

/// The `count` signed public keys at the head of `data`, and the bytes
/// after them.
pub open spec fn spec_parse_signed_keys(data: Seq<u8>, count: nat) -> Option<
    (Seq<HssSignedPublicKeyView>, Seq<u8>),
>
    decreases count,
{
    if count == 0 {
        Some((Seq::empty(), data))
    } else {
        match spec_parse_signed_key(data) {
            None => None,
            Some((first, rest)) => match spec_parse_signed_keys(rest, (count - 1) as nat) {
                None => None,
                Some((others, tail)) => Some((seq![first] + others, tail)),
            },
        }
    }
}

/// The signature that `data` encodes: a count of at most seven, that
/// many signed public keys, and a signature that takes up the rest of
/// `data`.
pub open spec fn spec_parse_hss_signature(data: Seq<u8>) -> Option<HssSignatureView> {
    if data.len() < 4 {
        None
    } else {
        let count = spec_str32u(data.subrange(0, 4));
        if count > 7 {
            None
        } else {
            match spec_parse_signed_keys(data.subrange(4, data.len() as int), count as nat) {
                None => None,
                Some((signed_public_keys, rest)) => match spec_parse_lms_signature(rest) {
                    None => None,
                    Some(signature) => Some(HssSignatureView { signed_public_keys, signature }),
                },
            }
        }
    }
}

/// The public key of the tree at level `k` on the way down `indices`.
pub open spec fn spec_level_public_key(key: RfcPrivateKeyView, indices: Seq<u32>, k: nat) -> LmsPublicKeyView {
    let tree = spec_tree(key.n(), key.seed, indices, k);
    spec_lms_public_key(key.parameters[k as int].0, key.parameters[k as int].1, tree.1, tree.0)
}

/// The signature by the tree at level `k` of `message` under the
/// randomiser `c`.
pub open spec fn spec_level_sign(
    key: RfcPrivateKeyView,
    indices: Seq<u32>,
    k: nat,
    c: Seq<u8>,
    message: Seq<u8>,
) -> LmsSignatureView {
    let tree = spec_tree(key.n(), key.seed, indices, k);
    spec_lms_sign(
        key.parameters[k as int].0,
        key.parameters[k as int].1,
        tree.1,
        tree.0,
        indices[k as int],
        c,
        message,
    )
}

/// The public key of the tree at level `k + 1`, signed by the tree at
/// level `k` under a randomiser derived from that tree's seed.
pub open spec fn spec_signed_public_key(key: RfcPrivateKeyView, indices: Seq<u32>, k: nat) -> HssSignedPublicKeyView {
    let tree = spec_tree(key.n(), key.seed, indices, k);
    let public_key = spec_level_public_key(key, indices, k + 1);
    HssSignedPublicKeyView {
        sig: spec_level_sign(
            key,
            indices,
            k,
            spec_inner_randomizer(key.n(), tree.1, indices[k as int], tree.0),
            public_key.serialize(),
        ),
        public_key,
    }
}

/// The public key of a key: it does not depend on how many signatures
/// the key has made.
pub open spec fn spec_hss_public_key(key: RfcPrivateKeyView) -> HssPublicKeyView {
    HssPublicKeyView {
        level: key.parameters.len() as u32,
        public_key: spec_level_public_key(key, Seq::empty(), 0),
    }
}

/// The signature that a key makes of `message` under the randomiser `c`
/// when its counter stands at `key.q`.
pub open spec fn spec_hss_sign(key: RfcPrivateKeyView, message: Seq<u8>, c: Seq<u8>) -> HssSignatureView {
    let indices = spec_leaf_indices(key.parameters, key.q as nat);
    let last = (key.parameters.len() - 1) as nat;
    HssSignatureView {
        signed_public_keys: Seq::new(last, |k: int| spec_signed_public_key(key, indices, k as nat)),
        signature: spec_level_sign(key, indices, last, c, message),
    }
}

/// The state of a key after it has made one more signature.
pub open spec fn spec_advance(key: RfcPrivateKeyView) -> RfcPrivateKeyView {
    RfcPrivateKeyView { q: (key.q + 1) as u64, ..key }
}

/// What signing does, as a function of the key's state, the message and
/// the randomiser: the signature and the state that the key is left in,
/// or the reason for which nothing was signed. A key that has made as
/// many signatures as it can refuses; a key that has not refuses a
/// randomiser that is not `n` bytes long.
pub open spec fn spec_sign_result(key: RfcPrivateKeyView, message: Seq<u8>, c: Seq<u8>) -> Result<
    (HssSignatureView, RfcPrivateKeyView),
    LmsError,
> {
    if key.q >= spec_capacity(key.parameters) {
        Err(LmsError::KeyExhausted)
    } else if c.len() != key.n() {
        Err(LmsError::EntropyFailure)
    } else {
        Ok((spec_hss_sign(key, message, c), spec_advance(key)))
    }
}

/// The leaves that made a signature, from the top tree down.
pub open spec fn spec_signature_leaves(signature: HssSignatureView) -> Seq<u32> {
    Seq::new(signature.signed_public_keys.len(), |k: int| signature.signed_public_keys[k].sig.q).push(
        signature.signature.q,
    )
}

/// Whether the part of `signature` from level `k` down verifies, given
/// that `key` is the public key of the tree at level `k`.
pub open spec fn spec_verify_chain(
    signature: HssSignatureView,
    key: LmsPublicKeyView,
    k: nat,
    message: Seq<u8>,
) -> bool
    decreases signature.signed_public_keys.len() - k,
{
    if k >= signature.signed_public_keys.len() {
        spec_lms_verify(signature.signature, key, message)
    } else {
        let next = signature.signed_public_keys[k as int];
        spec_lms_verify(next.sig, key, next.public_key.serialize()) && spec_verify_chain(
            signature,
            next.public_key,
            k + 1,
            message,
        )
    }
}

/// Whether `signature` signs `message` under `public_key`: it has one
/// signed key fewer than the public key has levels, every tree's
/// signature of the public key below it verifies, and the last tree's
/// signature of the message verifies.
pub open spec fn spec_hss_verify(
    signature: HssSignatureView,
    public_key: HssPublicKeyView,
    message: Seq<u8>,
) -> bool {
    signature.signed_public_keys.len() + 1 == public_key.level && spec_verify_chain(
        signature,
        public_key.public_key,
        0,
        message,
    )
}

/// There is one leaf per level, and each is a leaf of its tree.
pub proof fn lemma_leaf_indices(parameters: Seq<LevelParameter>, q: nat)
    ensures
        spec_leaf_indices(parameters, q).len() == parameters.len(),
        forall|k: int|
            0 <= k < parameters.len() ==> #[trigger] spec_leaf_indices(parameters, q)[k]
                < parameters[k].1.leaves(),
    decreases parameters.len(),
{
    if parameters.len() > 0 {
        let leaves = parameters.last().1.leaves();
        parameters.last().1.lemma_sizes();
        lemma_leaf_indices(parameters.drop_last(), q / leaves);
        assert forall|k: int| 0 <= k < parameters.len() implies #[trigger] spec_leaf_indices(
            parameters,
            q,
        )[k] < parameters[k].1.leaves() by {
            if k < parameters.len() - 1 {
                assert(parameters.drop_last()[k] == parameters[k]);
            }
        }
    }
}

/// The seed and the identifier of every tree are a function of the root
/// seed and of the leaves that sign above it, and of nothing else: two
/// ways down the hierarchy that agree on the first `k` leaves meet the
/// same tree at level `k`.
pub proof fn theorem_tree_depends_on_path(n: nat, root_seed: Seq<u8>, a: Seq<u32>, b: Seq<u32>, k: nat)
    requires
        k <= a.len(),
        k <= b.len(),
        a.subrange(0, k as int) == b.subrange(0, k as int),
    ensures
        spec_tree(n, root_seed, a, k) == spec_tree(n, root_seed, b, k),
    decreases k,
{
    if k > 0 {
        assert(a.subrange(0, k - 1) =~= a.subrange(0, k as int).subrange(0, k - 1));
        assert(b.subrange(0, k - 1) =~= b.subrange(0, k as int).subrange(0, k - 1));
        theorem_tree_depends_on_path(n, root_seed, a, b, (k - 1) as nat);
        assert(a[k - 1] == a.subrange(0, k as int)[k - 1]);
        assert(b[k - 1] == b.subrange(0, k as int)[k - 1]);
    }
}

/// The public key of a well-formed key is well formed.
pub proof fn lemma_public_key_wf(key: RfcPrivateKeyView)
    requires
        key.wf(),
    ensures
        spec_hss_public_key(key).wf(),
{
    let level = key.parameters[0];
    let tree = spec_tree(key.n(), key.seed, Seq::empty(), 0);
    lemma_tree_i_len(key, Seq::empty(), 0);
    crate::lms::definitions::lemma_node_len(level.0, level.1, tree.1, tree.0, 1, level.1.h());
}

/// The identifier of every tree of a key is sixteen bytes long.
pub proof fn lemma_tree_i_len(key: RfcPrivateKeyView, indices: Seq<u32>, k: nat)
    requires
        key.wf(),
    ensures
        spec_tree(key.n(), key.seed, indices, k).1.len() == 16,
{
    key.parameters[0].0.lemma_sizes();
    if k == 0 {
        lemma_digest_len(
            key.n(),
            crate::hss::seed_derive::spec_topseed_preimage(
                2,
                crate::hss::seed_derive::spec_top_intermediate(key.n(), key.seed),
            ),
        );
    } else {
        let parent = spec_tree(key.n(), key.seed, indices, (k - 1) as nat);
        lemma_digest_len(
            key.n(),
            parent.1 + spec_u32str(indices[k - 1]) + spec_u16str(crate::constants::SEED_CHILD_I)
                + seq![0xffu8] + parent.0,
        );
    }
}

/// What the tree at a level signs under a randomiser of `n` bytes is
/// well formed, and so is the tree's public key.
pub proof fn lemma_level_wf(key: RfcPrivateKeyView, k: nat, c: Seq<u8>, message: Seq<u8>)
    requires
        key.wf(),
        k < key.parameters.len(),
        c.len() == key.n(),
    ensures
        spec_level_sign(key, spec_leaf_indices(key.parameters, key.q as nat), k, c, message).wf(),
        spec_level_public_key(key, spec_leaf_indices(key.parameters, key.q as nat), k).wf(),
{
    let indices = spec_leaf_indices(key.parameters, key.q as nat);
    let tree = spec_tree(key.n(), key.seed, indices, k);
    let level = key.parameters[k as int];
    lemma_leaf_indices(key.parameters, key.q as nat);
    assert(level.0.n() == key.n());
    lemma_tree_i_len(key, indices, k);
    crate::lms::definitions::lemma_node_len(level.0, level.1, tree.1, tree.0, 1, level.1.h());
    crate::lms::definitions::lemma_lms_sign_wf(
        level.0,
        level.1,
        tree.1,
        tree.0,
        indices[k as int],
        c,
        message,
    );
}

/// The signatures of a key are well formed wherever the randomiser is
/// `n` bytes long.
pub proof fn lemma_sign_wf(key: RfcPrivateKeyView, message: Seq<u8>, c: Seq<u8>)
    requires
        key.wf(),
        c.len() == key.n(),
    ensures
        spec_hss_sign(key, message, c).wf(),
{
    let indices = spec_leaf_indices(key.parameters, key.q as nat);
    let signature = spec_hss_sign(key, message, c);
    let last = (key.parameters.len() - 1) as nat;
    lemma_level_wf(key, last, c, message);
    assert forall|k: int| 0 <= k < signature.signed_public_keys.len() implies (
    #[trigger] signature.signed_public_keys[k]).wf() by {
        let tree = spec_tree(key.n(), key.seed, indices, k as nat);
        let randomizer = spec_inner_randomizer(key.n(), tree.1, indices[k], tree.0);
        let below = spec_level_public_key(key, indices, (k + 1) as nat);
        key.parameters[0].0.lemma_sizes();
        lemma_digest_len(
            key.n(),
            tree.1 + spec_u32str(indices[k]) + spec_u16str(crate::constants::SEED_RANDOMIZER)
                + seq![0xffu8] + tree.0,
        );
        lemma_level_wf(key, k as nat, randomizer, below.serialize());
        lemma_level_wf(key, (k + 1) as nat, c, message);
    }
}

/// The signatures of a key from level `k` down verify under the public
/// key of the key's tree at level `k`.
pub proof fn lemma_sign_then_verify_chain(
    key: RfcPrivateKeyView,
    message: Seq<u8>,
    c: Seq<u8>,
    k: nat,
)
    requires
        key.wf(),
        c.len() == key.n(),
        k < key.parameters.len(),
    ensures
        spec_verify_chain(
            spec_hss_sign(key, message, c),
            spec_level_public_key(key, spec_leaf_indices(key.parameters, key.q as nat), k),
            k,
            message,
        ),
    decreases key.parameters.len() - k,
{
    let indices = spec_leaf_indices(key.parameters, key.q as nat);
    let signature = spec_hss_sign(key, message, c);
    let tree = spec_tree(key.n(), key.seed, indices, k);
    let level = key.parameters[k as int];
    lemma_leaf_indices(key.parameters, key.q as nat);
    assert(level.0.n() == key.n());
    if k >= signature.signed_public_keys.len() {
        lemma_lms_sign_then_verify(level.0, level.1, tree.1, tree.0, indices[k as int], c, message);
    } else {
        let next = signature.signed_public_keys[k as int];
        let randomizer = spec_inner_randomizer(key.n(), tree.1, indices[k as int], tree.0);
        level.0.lemma_sizes();
        lemma_digest_len(
            key.n(),
            tree.1 + spec_u32str(indices[k as int]) + spec_u16str(crate::constants::SEED_RANDOMIZER)
                + seq![0xffu8] + tree.0,
        );
        lemma_lms_sign_then_verify(
            level.0,
            level.1,
            tree.1,
            tree.0,
            indices[k as int],
            randomizer,
            next.public_key.serialize(),
        );
        lemma_sign_then_verify_chain(key, message, c, k + 1);
    }
}

/// Every signature that a key makes verifies under the key's public key:
/// for every well-formed key that is not exhausted, every message and
/// every randomiser of `n` bytes.
pub proof fn lemma_sign_then_verify(key: RfcPrivateKeyView, message: Seq<u8>, c: Seq<u8>)
    requires
        key.wf(),
        key.q < spec_capacity(key.parameters),
        c.len() == key.n(),
    ensures
        spec_hss_verify(spec_hss_sign(key, message, c), spec_hss_public_key(key), message),
{
    let indices = spec_leaf_indices(key.parameters, key.q as nat);
    lemma_sign_then_verify_chain(key, message, c, 0);
    assert(spec_tree(key.n(), key.seed, indices, 0) == spec_tree(key.n(), key.seed, Seq::empty(), 0));
}

/// A hierarchy's public key: the number of levels and the public key of
/// the top tree.
pub struct HssPublicKey {
    pub level: u32,
    pub public_key: LmsPublicKey,
}

impl View for HssPublicKey {
    type V = HssPublicKeyView;

    open spec fn view(&self) -> HssPublicKeyView {
        HssPublicKeyView { level: self.level, public_key: self.public_key@ }
    }
}

impl HssPublicKey {
    /// The bytes of the public key on the wire.
    pub fn to_binary_representation(&self) -> (r: Vec<u8>)
        ensures
            r@ == self@.serialize(),
    {
        let mut r: Vec<u8> = Vec::new();
        r.extend_from_slice(&crate::util::ustr::u32str(self.level));
        let inner = self.public_key.to_binary_representation();
        r.extend_from_slice(inner.as_slice());
        assert(r@ =~= self@.serialize());
        r
    }

    /// Reads a public key off the wire. `None` where the number of levels
    /// is not between one and eight, or what follows it is not the public
    /// key of a tree.
    pub fn from_binary_representation(data: &[u8]) -> (r: Option<Self>)
        ensures
            match r {
                Some(key) => spec_parse_hss_public_key(data@) == Some(key@) && key@.wf(),
                None => spec_parse_hss_public_key(data@) is None,
            },
    {
        if data.len() < 4 {
            return None;
        }
        let level: u32 = crate::util::ustr::str32u(vstd::slice::slice_subrange(data, 0, 4));
        let public_key = match LmsPublicKey::from_binary_representation(
            vstd::slice::slice_subrange(data, 4, data.len()),
        ) {
            None => {
                return None;
            },
            Some(x) => x,
        };
        if level < 1 || level > 8 {
            return None;
        }
        Some(HssPublicKey { level, public_key })
    }
}

/// A hierarchy's private key. All that it holds is the persisted state;
/// every tree is derived from it when it is needed.
pub struct HssPrivateKey {
    pub private_key: RfcPrivateKey,
}

impl View for HssPrivateKey {
    type V = RfcPrivateKeyView;

    open spec fn view(&self) -> RfcPrivateKeyView {
        self.private_key@
    }
}

/// The number of signatures that a hierarchy of these levels can make.
pub fn capacity(parameters: &[LevelParameter]) -> (r: u64)
    requires
        valid_parameters(parameters@),
    ensures
        r == spec_capacity(parameters@),
{
    let count: usize = parameters.len();
    let mut total: u64 = 0;
    let mut k: usize = 0;
    assert(parameters@.subrange(0, 0) =~= Seq::<LevelParameter>::empty());
    while k < count
        invariant
            k <= count <= 8,
            count == parameters@.len(),
            total == spec_total_height(parameters@.subrange(0, k as int)),
            total <= 25 * k,
        decreases count - k,
    {
        proof {
            parameters@[k as int].1.lemma_sizes();
            assert(parameters@.subrange(0, k + 1).drop_last() =~= parameters@.subrange(0, k as int));
        }
        total = total + parameters[k].1.get_h() as u64;
        k += 1;
    }
    proof {
        assert(parameters@.subrange(0, count as int) =~= parameters@);
        lemma_capacity_bound(parameters@);
        vstd::bits::lemma_u64_shl_is_mul(1, total);
    }
    1u64 << total
}

/// The leaf that signs at each level when the key makes signature number
/// `q`, the top level first.
pub fn leaf_indices(parameters: &[LevelParameter], q: u64) -> (r: Vec<u32>)
    ensures
        r@ == spec_leaf_indices(parameters@, q as nat),
{
    let count: usize = parameters.len();
    let ghost want = spec_leaf_indices(parameters@, q as nat);
    let mut reversed: Vec<u32> = Vec::new();
    let mut rest: u64 = q;
    let mut t: usize = 0;
    proof {
        lemma_leaf_indices(parameters@, q as nat);
        assert(parameters@.subrange(0, count as int) =~= parameters@);
        assert(want.subrange(0, count as int) =~= want);
    }
    while t < count
        invariant
            t <= count,
            count == parameters@.len(),
            want.len() == count,
            reversed@.len() == t,
            forall|s: int| 0 <= s < t ==> reversed@[s] == want[count - 1 - s],
            spec_leaf_indices(parameters@.subrange(0, count - t), rest as nat) == want.subrange(
                0,
                count - t,
            ),
        decreases count - t,
    {
        let level: usize = count - 1 - t;
        let leaves: u64 = parameters[level].1.get_leaves() as u64;
        proof {
            let head = parameters@.subrange(0, count - t);
            parameters@[level as int].1.lemma_sizes();
            assert(head.last() == parameters@[level as int]);
            assert(head.drop_last() =~= parameters@.subrange(0, count - t - 1));
            let digits = spec_leaf_indices(head, rest as nat);
            assert(digits.last() == (rest as nat % leaves as nat) as u32);
            assert(digits.drop_last() =~= spec_leaf_indices(head.drop_last(), rest as nat / leaves as nat));
            assert(want.subrange(0, count - t).last() == want[level as int]);
            assert(want.subrange(0, count - t).drop_last() =~= want.subrange(0, count - t - 1));
        }
        reversed.push((rest % leaves) as u32);
        rest = rest / leaves;
        t += 1;
    }
    let mut indices: Vec<u32> = Vec::new();
    let mut k: usize = 0;
    while k < count
        invariant
            k <= count,
            want.len() == count,
            reversed@.len() == count,
            forall|s: int| 0 <= s < count ==> reversed@[s] == want[count - 1 - s],
            indices@.len() == k,
            forall|j: int| 0 <= j < k ==> indices@[j] == want[j],
        decreases count - k,
    {
        indices.push(reversed[count - 1 - k]);
        k += 1;
    }
    assert(indices@ =~= want);
    indices
}

/// The seed and the identifier of the tree at every level on the way down
/// the leaves `indices`.
pub fn derive_trees(key: &RfcPrivateKey, parameters: &[LevelParameter], indices: &[u32]) -> (r: Vec<
    SeedAndI,
>)
    requires
        key.wf(),
        parameters@ == key@.parameters,
        indices@.len() == parameters@.len(),
    ensures
        r@.len() == parameters@.len(),
        forall|k: int|
            0 <= k < r@.len() ==> (#[trigger] r@[k].seed@, r@[k].i@) == spec_tree(
                key@.n(),
                key.seed@,
                indices@,
                k as nat,
            ),
{
    let count: usize = parameters.len();
    let mut trees: Vec<SeedAndI> = Vec::new();
    trees.push(key.generate_root_seed_I_value());
    let mut k: usize = 1;
    proof {
        crate::hss::parameter::lemma_encode_decode(key.compressed_parameter@);
    }
    while k < count
        invariant
            1 <= k <= count,
            count == parameters@.len(),
            indices@.len() == count,
            parameters@ == key@.parameters,
            valid_parameters(parameters@),
            trees@.len() == k,
            forall|j: int|
                0 <= j < k ==> (#[trigger] trees@[j].seed@, trees@[j].i@) == spec_tree(
                    key@.n(),
                    key.seed@,
                    indices@,
                    j as nat,
                ),
        decreases count - k,
    {
        assert(parameters@[k as int].0.n() == key@.n());
        let child = generate_child_seed_I_value(
            trees[k - 1].seed.as_slice(),
            &trees[k - 1].i,
            indices[k - 1],
            parameters[k].0,
            parameters[k].1,
        );
        assert((child.seed@, child.i@) == spec_tree(key@.n(), key.seed@, indices@, k as nat));
        trees.push(child);
        k += 1;
    }
    trees
}

impl HssPrivateKey {
    /// The state is well formed.
    pub open spec fn wf(&self) -> bool {
        self.private_key.wf()
    }

    /// A fresh key for the given levels, with `seed` as its root seed.
    ///
    /// Fails with `ConfigInvalid` where no key can be made with the
    /// levels and, else, with `EntropyFailure` where the seed is not as
    /// long as their digests.
    pub fn generate(parameters: &[LevelParameter], seed: &[u8]) -> (r: Result<Self, LmsError>)
        ensures
            match r {
                Ok(key) => {
                    &&& valid_parameters(parameters@)
                    &&& seed@.len() == parameters@[0].0.n()
                    &&& key.wf()
                    &&& key@ == (RfcPrivateKeyView { q: 0, parameters: parameters@, seed: seed@ })
                },
                Err(e) => {
                    &&& e == if valid_parameters(parameters@) {
                        LmsError::EntropyFailure
                    } else {
                        LmsError::ConfigInvalid
                    }
                    &&& !valid_parameters(parameters@) || seed@.len() != parameters@[0].0.n()
                },
            },
    {
        if !crate::hss::parameter::check_parameters(parameters) {
            return Err(LmsError::ConfigInvalid);
        }
        match RfcPrivateKey::generate(parameters, seed) {
            Some(private_key) => Ok(HssPrivateKey { private_key }),
            None => Err(LmsError::EntropyFailure),
        }
    }

    /// The number of signatures that the key has made.
    pub fn get_q(&self) -> (r: u64)
        ensures
            r == self@.q,
    {
        self.private_key.q
    }

    /// The number of signatures that the key can make in all.
    pub fn get_capacity(&self) -> (r: u64)
        requires
            self.wf(),
        ensures
            r == spec_capacity(self@.parameters),
    {
        let parameters = self.private_key.compressed_parameter.to();
        proof {
            crate::hss::parameter::lemma_encode_decode(self.private_key.compressed_parameter@);
        }
        capacity(parameters.as_slice())
    }

    /// The public key: the number of levels and the public key of the top
    /// tree. It is the same however many signatures the key has made.
    pub fn get_public_key(&self) -> (r: HssPublicKey)
        requires
            self.wf(),
        ensures
            r@ == spec_hss_public_key(self@),
            r@.public_key.wf(),
    {
        let parameters = self.private_key.compressed_parameter.to();
        proof {
            crate::hss::parameter::lemma_encode_decode(self.private_key.compressed_parameter@);
        }
        let top = self.private_key.generate_root_seed_I_value();
        let tree = crate::lms::keygen::generate_private_key(
            parameters[0].0,
            parameters[0].1,
            top.i,
            top.seed.as_slice(),
        );
        let public_key = crate::lms::keygen::generate_public_key(&tree);
        HssPublicKey { level: parameters.len() as u32, public_key }
    }
}

} // verus!
