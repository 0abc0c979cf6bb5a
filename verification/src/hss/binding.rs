//! A hierarchy's signature binds its message: whoever changes the
//! message or one part of a signature and still has it accepted has
//! found two byte strings with one digest.

use vstd::prelude::*;
use crate::hasher::{collides, lemma_digest_len};
use crate::hss::definitions::{
    lemma_leaf_indices, lemma_sign_wf, spec_hss_public_key, spec_hss_sign, spec_hss_verify,
    spec_leaf_indices, spec_level_public_key, spec_level_sign, spec_sign_result,
    spec_signed_key_rows, spec_tree, spec_verify_chain, HssSignatureView,
};
use crate::hss::rfc_private_key::RfcPrivateKeyView;
use crate::hss::seed_derive::spec_inner_randomizer;
use crate::lms::binding::{
    lemma_public_key_of_bytes, lemma_public_key_of_head, lemma_signature_of_bytes,
    lemma_signature_one_byte, theorem_tree_binding,
};
use crate::lms::definitions::{
    lemma_parse_serialize_lms_signature, LmsPublicKeyView, LmsSignatureView,
};
use crate::util::chunks::{lemma_differ_at_split, spec_differ_at};
use crate::util::ustr::{spec_u16str, spec_u32str};

verus! {

/// The signature that the tree at level `k` contributes to a signature.
pub open spec fn spec_level_signature(signature: HssSignatureView, k: nat) -> LmsSignatureView {
    if k < signature.signed_public_keys.len() {
        signature.signed_public_keys[k as int].sig
    } else {
        signature.signature
    }
}

/// What the tree at level `k` has signed in a signature of `message`: the
/// public key of the tree below it, or, at the last level, the message.
pub open spec fn spec_level_message(signature: HssSignatureView, k: nat, message: Seq<u8>) -> Seq<u8> {
    if k < signature.signed_public_keys.len() {
        signature.signed_public_keys[k as int].public_key.serialize()
    } else {
        message
    }
}

/// Whether `other`, with its message, is `signature`, with its message,
/// changed at level `k` and in one part there: above level `k` the two
/// are the same; at level `k` they differ; and at level `k` either the
/// chain values and the path are the same, or the leaf, the randomiser
/// and what is signed are.
pub open spec fn spec_changed_in_one_part(
    signature: HssSignatureView,
    message: Seq<u8>,
    other: HssSignatureView,
    other_message: Seq<u8>,
    k: nat,
) -> bool {
    let mine = spec_level_signature(signature, k);
    let theirs = spec_level_signature(other, k);
    let signed = spec_level_message(signature, k, message);
    let other_signed = spec_level_message(other, k, other_message);
    &&& k <= signature.signed_public_keys.len()
    &&& other.signed_public_keys.len() == signature.signed_public_keys.len()
    &&& forall|j: int| 0 <= j < k ==> other.signed_public_keys[j] == signature.signed_public_keys[j]
    &&& theirs != mine || other_signed != signed
    &&& (theirs.lmots_signature.y == mine.lmots_signature.y && theirs.path == mine.path) || (theirs.q
        == mine.q && theirs.lmots_signature.c == mine.lmots_signature.c && other_signed == signed)
}

/// A signature that verifies under a key's public key and agrees with
/// the key's own signature above level `k` verifies from level `k` down
/// under the public key of the key's tree at level `k`.
proof fn lemma_verifies_from(
    key: RfcPrivateKeyView,
    message: Seq<u8>,
    c: Seq<u8>,
    other: HssSignatureView,
    other_message: Seq<u8>,
    k: nat,
)
    requires
        key.wf(),
        k < key.parameters.len(),
        other.signed_public_keys.len() + 1 == key.parameters.len(),
        forall|j: int|
            0 <= j < k ==> other.signed_public_keys[j] == spec_hss_sign(
                key,
                message,
                c,
            ).signed_public_keys[j],
        spec_verify_chain(
            other,
            spec_level_public_key(key, spec_leaf_indices(key.parameters, key.q as nat), 0),
            0,
            other_message,
        ),
    ensures
        spec_verify_chain(
            other,
            spec_level_public_key(key, spec_leaf_indices(key.parameters, key.q as nat), k),
            k,
            other_message,
        ),
    decreases k,
{
    if k > 0 {
        lemma_verifies_from(key, message, c, other, other_message, (k - 1) as nat);
        let indices = spec_leaf_indices(key.parameters, key.q as nat);
        let honest = spec_hss_sign(key, message, c);
        assert(other.signed_public_keys[k - 1] == honest.signed_public_keys[k - 1]);
        assert(honest.signed_public_keys[k - 1].public_key == spec_level_public_key(key, indices, k));
    }
}

/// A hierarchy's signature binds what it signs. Take the signature that
/// a key makes of a message, and change it or the message at one level
/// and in one part: the chain values and the path of that level's
/// signature, or its leaf, its randomiser and what it signs. If the
/// result verifies under the key's public key, the digest collides.
pub proof fn theorem_hierarchy_binding(
    key: RfcPrivateKeyView,
    message: Seq<u8>,
    c: Seq<u8>,
    other: HssSignatureView,
    other_message: Seq<u8>,
    k: nat,
)
    requires
        key.wf(),
        spec_sign_result(key, message, c) is Ok,
        spec_changed_in_one_part(spec_hss_sign(key, message, c), message, other, other_message, k),
        spec_hss_verify(other, spec_hss_public_key(key), other_message),
    ensures
        collides(key.n()),
{
    let indices = spec_leaf_indices(key.parameters, key.q as nat);
    let honest = spec_hss_sign(key, message, c);
    let last = (key.parameters.len() - 1) as nat;
    let tree = spec_tree(key.n(), key.seed, indices, k);
    let level = key.parameters[k as int];
    lemma_leaf_indices(key.parameters, key.q as nat);
    assert(level.0.n() == key.n() && level.1.m() == key.n());
    assert(spec_tree(key.n(), key.seed, indices, 0) == spec_tree(key.n(), key.seed, Seq::empty(), 0));
    lemma_verifies_from(key, message, c, other, other_message, k);
    let randomizer = if k < last {
        spec_inner_randomizer(key.n(), tree.1, indices[k as int], tree.0)
    } else {
        c
    };
    let signed = spec_level_message(honest, k, message);
    assert(spec_level_signature(honest, k) == spec_level_sign(key, indices, k, randomizer, signed));
    level.0.lemma_sizes();
    lemma_digest_len(
        key.n(),
        tree.1 + spec_u32str(indices[k as int]) + spec_u16str(crate::constants::SEED_RANDOMIZER)
            + seq![0xffu8] + tree.0,
    );
    theorem_tree_binding(
        level.0,
        level.1,
        tree.1,
        tree.0,
        indices[k as int],
        randomizer,
        signed,
        spec_level_signature(other, k),
        spec_level_message(other, k, other_message),
    );
}

/// The bytes of a signature from level `j` on: for every level but the
/// last, the signature of the level and the public key that it signs;
/// then the signature of the message.
pub open spec fn spec_remaining(signature: HssSignatureView, j: nat) -> Seq<u8>
    decreases signature.signed_public_keys.len() - j,
{
    if j >= signature.signed_public_keys.len() {
        signature.signature.serialize()
    } else {
        signature.signed_public_keys[j as int].sig.serialize()
            + signature.signed_public_keys[j as int].public_key.serialize() + spec_remaining(
            signature,
            j + 1,
        )
    }
}

/// The bytes from level `j` on are the wire forms of the signed public
/// keys from there on, and the last signature.
proof fn lemma_remaining_rows(signature: HssSignatureView, j: nat)
    requires
        j <= signature.signed_public_keys.len(),
    ensures
        spec_remaining(signature, j) == spec_signed_key_rows(
            signature.signed_public_keys.subrange(j as int, signature.signed_public_keys.len() as int),
        ).flatten() + signature.signature.serialize(),
    decreases signature.signed_public_keys.len() - j,
{
    let keys = signature.signed_public_keys;
    let rows = spec_signed_key_rows(keys.subrange(j as int, keys.len() as int));
    if j >= keys.len() {
        assert(rows.flatten() =~= Seq::<u8>::empty());
        assert(rows.flatten() + signature.signature.serialize() =~= signature.signature.serialize());
    } else {
        lemma_remaining_rows(signature, j + 1);
        assert(rows.drop_first() =~= spec_signed_key_rows(
            keys.subrange((j + 1) as int, keys.len() as int),
        ));
        assert(rows.first() == keys[j as int].serialize());
        assert(rows.flatten() == rows.first() + rows.drop_first().flatten());
        assert(spec_remaining(signature, j) =~= rows.flatten() + signature.signature.serialize());
    }
}

/// One level of two signatures that differ in one byte: either the
/// level is the same in both and the byte lies further on, or the level
/// differs in one part.
proof fn lemma_level_step(
    mine: LmsSignatureView,
    theirs: LmsSignatureView,
    signed: LmsPublicKeyView,
    other_signed: LmsPublicKeyView,
    rest: Seq<u8>,
    other_rest: Seq<u8>,
    p: int,
)
    requires
        mine.wf(),
        theirs.wf(),
        signed.wf(),
        other_signed.wf(),
        mine.lms_parameter == theirs.lms_parameter,
        mine.lmots_signature.parameter == theirs.lmots_signature.parameter,
        spec_differ_at(
            mine.serialize() + signed.serialize() + rest,
            theirs.serialize() + other_signed.serialize() + other_rest,
            p,
        ),
    ensures
        theirs == mine && other_signed == signed ==> spec_differ_at(
            rest,
            other_rest,
            p - mine.serialize().len() - signed.serialize().len(),
        ),
        theirs != mine || other_signed != signed ==> (theirs.lmots_signature.y
            == mine.lmots_signature.y && theirs.path == mine.path) || (theirs.q == mine.q
            && theirs.lmots_signature.c == mine.lmots_signature.c && other_signed.serialize()
            == signed.serialize()),
        other_signed != signed ==> other_signed.serialize() != signed.serialize(),
{
    lemma_parse_serialize_lms_signature(mine);
    lemma_parse_serialize_lms_signature(theirs);
    assert(mine.serialize() + signed.serialize() + rest =~= mine.serialize() + (signed.serialize()
        + rest));
    assert(theirs.serialize() + other_signed.serialize() + other_rest =~= theirs.serialize() + (
    other_signed.serialize() + other_rest));
    lemma_differ_at_split(
        mine.serialize(),
        signed.serialize() + rest,
        theirs.serialize(),
        other_signed.serialize() + other_rest,
        p,
    );
    if other_signed.serialize() == signed.serialize() {
        lemma_public_key_of_bytes(signed, other_signed);
    }
    if p < mine.serialize().len() {
        lemma_signature_one_byte(mine, theirs, p);
        lemma_public_key_of_head(signed, other_signed, rest, other_rest);
    } else {
        lemma_signature_of_bytes(mine, theirs);
        if other_signed == signed {
            lemma_differ_at_split(
                signed.serialize(),
                rest,
                other_signed.serialize(),
                other_rest,
                p - mine.serialize().len(),
            );
        }
    }
}

/// What a signature that verifies from level `j` down under the public
/// key of a key's tree at level `j` has in common with the key's own
/// signature at that level: the parameter sets; and it verifies from the
/// next level down under the public key that it holds for that level.
proof fn lemma_level_sets(
    key: RfcPrivateKeyView,
    message: Seq<u8>,
    c: Seq<u8>,
    other: HssSignatureView,
    j: nat,
)
    requires
        key.wf(),
        other.signed_public_keys.len() + 1 == key.parameters.len(),
        j < key.parameters.len(),
        spec_verify_chain(
            other,
            spec_level_public_key(key, spec_leaf_indices(key.parameters, key.q as nat), j),
            j,
            message,
        ),
    ensures
        spec_level_signature(other, j).wf(),
        spec_level_signature(other, j).lms_parameter == spec_level_signature(
            spec_hss_sign(key, message, c),
            j,
        ).lms_parameter,
        spec_level_signature(other, j).lmots_signature.parameter == spec_level_signature(
            spec_hss_sign(key, message, c),
            j,
        ).lmots_signature.parameter,
        j + 1 < key.parameters.len() ==> spec_verify_chain(
            other,
            other.signed_public_keys[j as int].public_key,
            j + 1,
            message,
        ) && spec_hss_sign(key, message, c).signed_public_keys[j as int].public_key
            == spec_level_public_key(key, spec_leaf_indices(key.parameters, key.q as nat), j + 1),
{
}

/// Whether, from level `j` down and for as long as `b` holds the public
/// keys that `a` holds, the signatures of `b` name the parameter sets
/// that those of `a` name.
pub open spec fn spec_same_sets(a: HssSignatureView, b: HssSignatureView, j: nat) -> bool
    decreases a.signed_public_keys.len() - j,
{
    &&& spec_level_signature(b, j).lms_parameter == spec_level_signature(a, j).lms_parameter
    &&& spec_level_signature(b, j).lmots_signature.parameter == spec_level_signature(
        a,
        j,
    ).lmots_signature.parameter
    &&& j < a.signed_public_keys.len() && b.signed_public_keys[j as int].public_key
        == a.signed_public_keys[j as int].public_key ==> spec_same_sets(a, b, j + 1)
}

/// A signature that verifies from level `j` down under the public key of
/// a key's tree at level `j` names, for as long as it holds the public
/// keys of the key's own signature, the parameter sets that the key's
/// own signature names.
proof fn lemma_sets_of_verified(
    key: RfcPrivateKeyView,
    message: Seq<u8>,
    c: Seq<u8>,
    other: HssSignatureView,
    j: nat,
)
    requires
        key.wf(),
        other.signed_public_keys.len() + 1 == key.parameters.len(),
        j < key.parameters.len(),
        spec_verify_chain(
            other,
            spec_level_public_key(key, spec_leaf_indices(key.parameters, key.q as nat), j),
            j,
            message,
        ),
    ensures
        spec_same_sets(spec_hss_sign(key, message, c), other, j),
    decreases key.parameters.len() - j,
{
    let honest = spec_hss_sign(key, message, c);
    lemma_level_sets(key, message, c, other, j);
    if j < honest.signed_public_keys.len() && other.signed_public_keys[j as int].public_key
        == honest.signed_public_keys[j as int].public_key {
        lemma_sets_of_verified(key, message, c, other, j + 1);
    }
}

/// Of two well-formed signatures that agree above level `j`, name the
/// same parameter sets and differ in one byte from level `j` on, the
/// second is the first changed at one level and in one part.
proof fn lemma_one_byte_changed(
    honest: HssSignatureView,
    other: HssSignatureView,
    message: Seq<u8>,
    j: nat,
    p: int,
)
    requires
        honest.wf(),
        other.wf(),
        other.signed_public_keys.len() == honest.signed_public_keys.len(),
        j <= honest.signed_public_keys.len(),
        forall|t: int| 0 <= t < j ==> other.signed_public_keys[t] == honest.signed_public_keys[t],
        spec_differ_at(spec_remaining(honest, j), spec_remaining(other, j), p),
        spec_same_sets(honest, other, j),
    ensures
        exists|k: nat| spec_changed_in_one_part(honest, message, other, message, k),
    decreases honest.signed_public_keys.len() - j,
{
    let count = honest.signed_public_keys.len();
    let mine = spec_level_signature(honest, j);
    let theirs = spec_level_signature(other, j);
    if j >= count {
        lemma_signature_one_byte(mine, theirs, p);
        assert(spec_changed_in_one_part(honest, message, other, message, j));
    } else {
        let signed = honest.signed_public_keys[j as int].public_key;
        let other_signed = other.signed_public_keys[j as int].public_key;
        assert(honest.signed_public_keys[j as int].wf());
        assert(other.signed_public_keys[j as int].wf());
        lemma_level_step(
            mine,
            theirs,
            signed,
            other_signed,
            spec_remaining(honest, j + 1),
            spec_remaining(other, j + 1),
            p,
        );
        if theirs == mine && other_signed == signed {
            assert(other.signed_public_keys[j as int] == honest.signed_public_keys[j as int]);
            lemma_one_byte_changed(
                honest,
                other,
                message,
                j + 1,
                p - mine.serialize().len() - signed.serialize().len(),
            );
        } else {
            assert(spec_changed_in_one_part(honest, message, other, message, j));
        }
    }
}

/// A signature whose message is changed binds no more: if the signature
/// that a key makes of one message verifies for another under the key's
/// public key, the digest collides.
pub proof fn theorem_changed_message(
    key: RfcPrivateKeyView,
    message: Seq<u8>,
    c: Seq<u8>,
    other_message: Seq<u8>,
)
    requires
        key.wf(),
        spec_sign_result(key, message, c) is Ok,
        other_message != message,
        spec_hss_verify(spec_hss_sign(key, message, c), spec_hss_public_key(key), other_message),
    ensures
        collides(key.n()),
{
    let honest = spec_hss_sign(key, message, c);
    let last = honest.signed_public_keys.len();
    assert(spec_changed_in_one_part(honest, message, honest, other_message, last));
    theorem_hierarchy_binding(key, message, c, honest, other_message, last);
}

/// A signature with one byte changed binds no more: if a well-formed
/// signature whose wire form differs in one byte from that of the
/// signature that a key makes of a message verifies for the message
/// under the key's public key, the digest collides.
pub proof fn theorem_changed_byte(
    key: RfcPrivateKeyView,
    message: Seq<u8>,
    c: Seq<u8>,
    other: HssSignatureView,
    p: int,
)
    requires
        key.wf(),
        spec_sign_result(key, message, c) is Ok,
        other.wf(),
        spec_differ_at(spec_hss_sign(key, message, c).serialize(), other.serialize(), p),
        spec_hss_verify(other, spec_hss_public_key(key), message),
    ensures
        collides(key.n()),
{
    let honest = spec_hss_sign(key, message, c);
    let indices = spec_leaf_indices(key.parameters, key.q as nat);
    let count = spec_u32str(honest.signed_public_keys.len() as u32);
    lemma_remaining_rows(honest, 0);
    lemma_remaining_rows(other, 0);
    assert(honest.signed_public_keys.subrange(0, honest.signed_public_keys.len() as int)
        =~= honest.signed_public_keys);
    assert(other.signed_public_keys.subrange(0, other.signed_public_keys.len() as int)
        =~= other.signed_public_keys);
    assert(honest.serialize() =~= count + spec_remaining(honest, 0));
    assert(other.serialize() =~= count + spec_remaining(other, 0));
    lemma_differ_at_split(count, spec_remaining(honest, 0), count, spec_remaining(other, 0), p);
    assert(spec_tree(key.n(), key.seed, indices, 0) == spec_tree(key.n(), key.seed, Seq::empty(), 0));
    lemma_sign_wf(key, message, c);
    lemma_sets_of_verified(key, message, c, other, 0);
    lemma_one_byte_changed(honest, other, message, 0, p - count.len());
    let k = choose|k: nat| spec_changed_in_one_part(honest, message, other, message, k);
    theorem_hierarchy_binding(key, message, c, other, message, k);
}

} // verus!
