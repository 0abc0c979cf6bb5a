//! A signature under a tree binds what it signs: whoever changes the
//! message or a part of a signature and still has it accepted has found
//! two byte strings with one digest.

use vstd::prelude::*;
use crate::constants::{D_INTR, D_LEAF};
use crate::hasher::{collides, lemma_digest_len, lemma_same_digest};
use crate::lm_ots::binding::{lemma_flatten_binding, theorem_one_time_binding};
use crate::lm_ots::definitions::spec_public_key_candidate;
use crate::lm_ots::parameter::LmotsAlgorithm;
use crate::lms::definitions::{
    lemma_ancestor_range, lemma_ancestor_root, lemma_fold_path, lemma_node_len,
    lemma_parse_serialize_lms_signature, lemma_parse_serialize_public_key, spec_ancestor, spec_fold,
    spec_interior, spec_leaf, spec_leaf_key, spec_leaf_node, spec_lms_public_key, spec_lms_sign,
    spec_lms_verify, spec_node, spec_path, spec_sibling, LmsPublicKeyView, LmsSignatureView,
};
use crate::lms::parameter::LmsAlgorithm;
use crate::util::chunks::{lemma_differ_at_split, lemma_flatten_len, spec_differ_at, uniform};
use crate::util::ustr::{lemma_str_of_ustr, spec_u16str, spec_u32str};

verus! {

/// Two pairs of children of `m` bytes each that give one interior node
/// are one pair, or the digest collides.
pub proof fn lemma_interior_binding(
    lms: LmsAlgorithm,
    i: Seq<u8>,
    r: nat,
    left: Seq<u8>,
    right: Seq<u8>,
    other_left: Seq<u8>,
    other_right: Seq<u8>,
)
    requires
        left.len() == other_left.len(),
        spec_interior(lms, i, r, left, right) == spec_interior(lms, i, r, other_left, other_right),
    ensures
        (left == other_left && right == other_right) || collides(lms.m()),
{
    let head = i + spec_u32str(r as u32) + spec_u16str(D_INTR);
    let a = head + left + right;
    let b = head + other_left + other_right;
    lemma_same_digest(lms.m(), a, b);
    if a == b {
        let cut = head.len() + left.len();
        assert(a.subrange(head.len() as int, cut as int) =~= left);
        assert(b.subrange(head.len() as int, cut as int) =~= other_left);
        assert(a.subrange(cut as int, a.len() as int) =~= right);
        assert(b.subrange(cut as int, b.len() as int) =~= other_right);
    }
}

/// Two one-time public keys that give one leaf are one key, or the digest
/// collides.
pub proof fn lemma_leaf_binding(lms: LmsAlgorithm, i: Seq<u8>, r: nat, key: Seq<u8>, other: Seq<u8>)
    requires
        spec_leaf(lms, i, r, key) == spec_leaf(lms, i, r, other),
    ensures
        key == other || collides(lms.m()),
{
    let head = i + spec_u32str(r as u32) + spec_u16str(D_LEAF);
    lemma_same_digest(lms.m(), head + key, head + other);
    if head + key == head + other {
        assert((head + key).subrange(head.len() as int, (head + key).len() as int) =~= key);
        assert((head + other).subrange(head.len() as int, (head + other).len() as int) =~= other);
    }
}

/// Two nodes of one level with different numbers have different values,
/// or the digest collides.
pub proof fn lemma_node_numbers(
    lmots: LmotsAlgorithm,
    lms: LmsAlgorithm,
    i: Seq<u8>,
    seed: Seq<u8>,
    r: nat,
    other: nat,
    levels: nat,
)
    requires
        r != other,
        r < 0x1_0000_0000,
        other < 0x1_0000_0000,
        spec_node(lmots, lms, i, seed, r, levels) == spec_node(lmots, lms, i, seed, other, levels),
    ensures
        collides(lms.m()),
{
    lemma_str_of_ustr(0, r as u32, 0);
    lemma_str_of_ustr(0, other as u32, 0);
    let tag = if levels == 0 {
        D_LEAF
    } else {
        D_INTR
    };
    let rest = if levels == 0 {
        spec_leaf_key(lmots, i, (r - lms.leaves()) as u32, seed)
    } else {
        spec_node(lmots, lms, i, seed, 2 * r, (levels - 1) as nat) + spec_node(
            lmots,
            lms,
            i,
            seed,
            2 * r + 1,
            (levels - 1) as nat,
        )
    };
    let other_rest = if levels == 0 {
        spec_leaf_key(lmots, i, (other - lms.leaves()) as u32, seed)
    } else {
        spec_node(lmots, lms, i, seed, 2 * other, (levels - 1) as nat) + spec_node(
            lmots,
            lms,
            i,
            seed,
            2 * other + 1,
            (levels - 1) as nat,
        )
    };
    let a = i + spec_u32str(r as u32) + spec_u16str(tag) + rest;
    let b = i + spec_u32str(other as u32) + spec_u16str(tag) + other_rest;
    assert(spec_node(lmots, lms, i, seed, r, levels) == crate::hasher::digest(lms.m(), a)) by {
        if levels > 0 {
            assert(a =~= i + spec_u32str(r as u32) + spec_u16str(D_INTR) + spec_node(
                lmots,
                lms,
                i,
                seed,
                2 * r,
                (levels - 1) as nat,
            ) + spec_node(lmots, lms, i, seed, 2 * r + 1, (levels - 1) as nat));
        }
    }
    assert(spec_node(lmots, lms, i, seed, other, levels) == crate::hasher::digest(lms.m(), b)) by {
        if levels > 0 {
            assert(b =~= i + spec_u32str(other as u32) + spec_u16str(D_INTR) + spec_node(
                lmots,
                lms,
                i,
                seed,
                2 * other,
                (levels - 1) as nat,
            ) + spec_node(lmots, lms, i, seed, 2 * other + 1, (levels - 1) as nat));
        }
    }
    lemma_same_digest(lms.m(), a, b);
    if a == b {
        assert(a.subrange(i.len() as int, (i.len() + 4) as int) =~= spec_u32str(r as u32));
        assert(b.subrange(i.len() as int, (i.len() + 4) as int) =~= spec_u32str(other as u32));
    }
}

/// What a fold gives is `m` bytes long where what it starts from is.
pub proof fn lemma_fold_len(lms: LmsAlgorithm, i: Seq<u8>, r: nat, node: Seq<u8>, path: Seq<Seq<u8>>, k: nat)
    requires
        node.len() == lms.m(),
    ensures
        spec_fold(lms, i, r, node, path, k).len() == lms.m(),
{
    lms.lemma_sizes();
    if k > 0 {
        let below = spec_fold(lms, i, r, node, path, (k - 1) as nat);
        let current = spec_ancestor(r, (k - 1) as nat);
        let head = i + spec_u32str((current / 2) as u32) + spec_u16str(D_INTR);
        lemma_digest_len(lms.m(), head + path[k - 1] + below);
        lemma_digest_len(lms.m(), head + below + path[k - 1]);
    }
}

/// Two folds from one leaf number that give one value started from one
/// value and took the same path, or the digest collides.
pub proof fn lemma_fold_binding(
    lms: LmsAlgorithm,
    i: Seq<u8>,
    r: nat,
    node: Seq<u8>,
    path: Seq<Seq<u8>>,
    other_node: Seq<u8>,
    other_path: Seq<Seq<u8>>,
    k: nat,
)
    requires
        node.len() == lms.m(),
        other_node.len() == lms.m(),
        k <= path.len(),
        k <= other_path.len(),
        uniform(path, lms.m()),
        uniform(other_path, lms.m()),
        spec_fold(lms, i, r, node, path, k) == spec_fold(lms, i, r, other_node, other_path, k),
    ensures
        (node == other_node && path.subrange(0, k as int) == other_path.subrange(0, k as int))
            || collides(lms.m()),
    decreases k,
{
    if k == 0 {
        assert(path.subrange(0, 0) =~= other_path.subrange(0, 0));
    } else {
        let below = spec_fold(lms, i, r, node, path, (k - 1) as nat);
        let other_below = spec_fold(lms, i, r, other_node, other_path, (k - 1) as nat);
        let current = spec_ancestor(r, (k - 1) as nat);
        lemma_fold_len(lms, i, r, node, path, (k - 1) as nat);
        lemma_fold_len(lms, i, r, other_node, other_path, (k - 1) as nat);
        if current % 2 == 1 {
            lemma_interior_binding(
                lms,
                i,
                current / 2,
                path[k - 1],
                below,
                other_path[k - 1],
                other_below,
            );
        } else {
            lemma_interior_binding(
                lms,
                i,
                current / 2,
                below,
                path[k - 1],
                other_below,
                other_path[k - 1],
            );
        }
        if below == other_below && path[k - 1] == other_path[k - 1] {
            lemma_fold_binding(lms, i, r, node, path, other_node, other_path, (k - 1) as nat);
            if path.subrange(0, k - 1) == other_path.subrange(0, k - 1) {
                assert(path.subrange(0, k as int) =~= path.subrange(0, k - 1).push(path[k - 1]));
                assert(other_path.subrange(0, k as int) =~= other_path.subrange(0, k - 1).push(
                    other_path[k - 1],
                ));
            }
        }
    }
}

/// A fold from another leaf, along the authentication path of leaf `q`,
/// that arrives at the value of an ancestor of leaf `q` shows that the
/// digest collides.
pub proof fn lemma_fold_from_other_leaf(
    lmots: LmotsAlgorithm,
    lms: LmsAlgorithm,
    i: Seq<u8>,
    seed: Seq<u8>,
    q: u32,
    other: nat,
    node: Seq<u8>,
    k: nat,
)
    requires
        q < lms.leaves(),
        lms.leaves() <= other < 2 * lms.leaves(),
        other != spec_leaf_node(lms, q),
        node.len() == lms.m(),
        k <= lms.h(),
        spec_ancestor(other, k) == spec_ancestor(spec_leaf_node(lms, q), k),
        spec_fold(lms, i, other, node, spec_path(lmots, lms, i, seed, q), k) == spec_node(
            lmots,
            lms,
            i,
            seed,
            spec_ancestor(spec_leaf_node(lms, q), k),
            k,
        ),
    ensures
        collides(lms.m()),
    decreases k,
{
    let r = spec_leaf_node(lms, q);
    let path = spec_path(lmots, lms, i, seed, q);
    lms.lemma_sizes();
    if k > 0 {
        let down = (k - 1) as nat;
        let mine = spec_ancestor(r, down);
        let theirs = spec_ancestor(other, down);
        let parent = spec_ancestor(r, k);
        let below = spec_fold(lms, i, other, node, path, down);
        let left = spec_node(lmots, lms, i, seed, 2 * parent, down);
        let right = spec_node(lmots, lms, i, seed, 2 * parent + 1, down);
        lemma_ancestor_range(lms, r, down);
        lemma_ancestor_range(lms, other, down);
        crate::lms::definitions::lemma_row_bound(lms, down);
        lemma_fold_len(lms, i, other, node, path, down);
        lemma_node_len(lmots, lms, i, seed, 2 * parent, down);
        lemma_node_len(lmots, lms, i, seed, 2 * parent + 1, down);
        lemma_node_len(lmots, lms, i, seed, spec_sibling(mine), down);
        assert(path[k - 1] == spec_node(lmots, lms, i, seed, spec_sibling(mine), down));
        if theirs % 2 == 1 {
            lemma_interior_binding(lms, i, parent, path[k - 1], below, left, right);
            if path[k - 1] == left && below == right {
                if theirs == mine {
                    lemma_fold_from_other_leaf(lmots, lms, i, seed, q, other, node, down);
                } else {
                    lemma_node_numbers(lmots, lms, i, seed, 2 * parent + 1, 2 * parent, down);
                }
            }
        } else {
            lemma_interior_binding(lms, i, parent, below, path[k - 1], left, right);
            if below == left && path[k - 1] == right {
                if theirs == mine {
                    lemma_fold_from_other_leaf(lmots, lms, i, seed, q, other, node, down);
                } else {
                    lemma_node_numbers(lmots, lms, i, seed, 2 * parent, 2 * parent + 1, down);
                }
            }
        }
    }
}

/// A signature under a tree binds what it signs. Take the signature that
/// a tree makes of a message with one of its leaves, under a randomiser
/// of `n` bytes, and change it or the message; leave either the chain
/// values and the path, or the leaf, the randomiser and the message as
/// they were. If the result verifies under the tree's public key, the
/// digest collides, at the length of the one-time keys or at that of the
/// tree.
pub proof fn theorem_tree_binding(
    lmots: LmotsAlgorithm,
    lms: LmsAlgorithm,
    i: Seq<u8>,
    seed: Seq<u8>,
    q: u32,
    c: Seq<u8>,
    message: Seq<u8>,
    other: LmsSignatureView,
    other_message: Seq<u8>,
)
    requires
        q < lms.leaves(),
        c.len() == lmots.n(),
        spec_lms_verify(other, spec_lms_public_key(lmots, lms, i, seed), other_message),
        other != spec_lms_sign(lmots, lms, i, seed, q, c, message) || other_message != message,
        (other.lmots_signature.y == spec_lms_sign(lmots, lms, i, seed, q, c, message).lmots_signature.y
            && other.path == spec_lms_sign(lmots, lms, i, seed, q, c, message).path) || (other.q == q
            && other.lmots_signature.c == c && other_message == message),
    ensures
        collides(lmots.n()) || collides(lms.m()),
{
    let honest = spec_lms_sign(lmots, lms, i, seed, q, c, message);
    let r = spec_leaf_node(lms, q);
    let their = spec_leaf_node(lms, other.q);
    let key = spec_leaf_key(lmots, i, q, seed);
    let found = spec_public_key_candidate(
        i,
        spec_u32str(other.q),
        other.lmots_signature,
        other_message,
    );
    let start = spec_leaf(lms, i, their, found);
    lms.lemma_sizes();
    crate::lms::definitions::lemma_lms_sign_wf(lmots, lms, i, seed, q, c, message);
    lemma_fold_path(lmots, lms, i, seed, q, lms.h());
    lemma_ancestor_root(lms, r);
    lemma_ancestor_root(lms, their);
    lemma_digest_len(lms.m(), i + spec_u32str(their as u32) + spec_u16str(D_LEAF) + found);
    lemma_node_len(lmots, lms, i, seed, r, 0);
    if other.q != q {
        lemma_fold_from_other_leaf(lmots, lms, i, seed, q, their, start, lms.h());
    } else {
        assert((r - lms.leaves()) as u32 == q);
        lemma_fold_binding(
            lms,
            i,
            r,
            start,
            other.path,
            spec_node(lmots, lms, i, seed, r, 0),
            honest.path,
            lms.h(),
        );
        if start == spec_node(lmots, lms, i, seed, r, 0) && other.path.subrange(0, lms.h() as int)
            == honest.path.subrange(0, lms.h() as int) {
            assert(other.path =~= other.path.subrange(0, lms.h() as int));
            assert(honest.path =~= honest.path.subrange(0, lms.h() as int));
            lemma_leaf_binding(lms, i, r, found, key);
            if found == key {
                if other.lmots_signature == honest.lmots_signature && other_message == message {
                    assert(other == honest);
                }
                theorem_one_time_binding(
                    lmots,
                    i,
                    spec_u32str(q),
                    seed,
                    c,
                    message,
                    other.lmots_signature,
                    other_message,
                );
            }
        }
    }
}

/// Two well-formed signatures with one wire form are one signature.
pub proof fn lemma_signature_of_bytes(a: LmsSignatureView, b: LmsSignatureView)
    requires
        a.wf(),
        b.wf(),
        a.serialize() == b.serialize(),
    ensures
        a == b,
{
    lemma_parse_serialize_lms_signature(a);
    lemma_parse_serialize_lms_signature(b);
}

/// Two well-formed public keys with one wire form are one public key.
pub proof fn lemma_public_key_of_bytes(a: LmsPublicKeyView, b: LmsPublicKeyView)
    requires
        a.wf(),
        b.wf(),
        a.serialize() == b.serialize(),
    ensures
        a == b,
{
    lemma_parse_serialize_public_key(a);
    lemma_parse_serialize_public_key(b);
}

/// A well-formed public key is determined by bytes that open with its
/// wire form.
pub proof fn lemma_public_key_of_head(
    a: LmsPublicKeyView,
    b: LmsPublicKeyView,
    after_a: Seq<u8>,
    after_b: Seq<u8>,
)
    requires
        a.wf(),
        b.wf(),
        a.serialize() + after_a == b.serialize() + after_b,
    ensures
        a == b,
        after_a == after_b,
{
    let all = a.serialize() + after_a;
    lemma_parse_serialize_public_key(a);
    lemma_parse_serialize_public_key(b);
    lemma_str_of_ustr(0, a.lms_parameter.type_code(), 0);
    lemma_str_of_ustr(0, b.lms_parameter.type_code(), 0);
    a.lms_parameter.lemma_type_code();
    b.lms_parameter.lemma_type_code();
    assert(all.subrange(0, 4) =~= spec_u32str(a.lms_parameter.type_code()));
    assert(all.subrange(0, 4) =~= spec_u32str(b.lms_parameter.type_code()));
    let len = a.serialize().len() as int;
    assert(all.subrange(0, len) =~= a.serialize());
    assert(all.subrange(0, len) =~= b.serialize());
    assert(all.subrange(len, all.len() as int) =~= after_a);
    assert(all.subrange(len, all.len() as int) =~= after_b);
}

/// Two well-formed signatures of the same parameter sets whose wire
/// forms differ in one byte differ in one part: either the chain values
/// and the path are the same, or the leaf and the randomiser are.
pub proof fn lemma_signature_one_byte(a: LmsSignatureView, b: LmsSignatureView, p: int)
    requires
        a.wf(),
        b.wf(),
        a.lms_parameter == b.lms_parameter,
        a.lmots_signature.parameter == b.lmots_signature.parameter,
        spec_differ_at(a.serialize(), b.serialize(), p),
    ensures
        a != b,
        (a.lmots_signature.y == b.lmots_signature.y && a.path == b.path) || (a.q == b.q
            && a.lmots_signature.c == b.lmots_signature.c),
{
    let lmots = a.lmots_signature.parameter;
    let lms = a.lms_parameter;
    let n = lmots.n();
    lmots.lemma_sizes();
    lms.lemma_sizes();
    lemma_str_of_ustr(0, a.q, 0);
    lemma_str_of_ustr(0, b.q, 0);
    lemma_str_of_ustr(0, lmots.type_code(), 0);
    lemma_str_of_ustr(0, lms.type_code(), 0);
    lemma_flatten_len(a.lmots_signature.y, n);
    lemma_flatten_len(b.lmots_signature.y, n);
    lemma_flatten_len(a.path, lms.m());
    lemma_flatten_len(b.path, lms.m());
    let head_a = spec_u32str(a.q) + spec_u32str(lmots.type_code()) + a.lmots_signature.c;
    let head_b = spec_u32str(b.q) + spec_u32str(lmots.type_code()) + b.lmots_signature.c;
    let rows_a = a.lmots_signature.y.flatten();
    let rows_b = b.lmots_signature.y.flatten();
    let code = spec_u32str(lms.type_code());
    let tail_a = rows_a + code + a.path.flatten();
    let tail_b = rows_b + code + b.path.flatten();
    assert(a.serialize() =~= head_a + tail_a);
    assert(b.serialize() =~= head_b + tail_b);
    lemma_differ_at_split(head_a, tail_a, head_b, tail_b, p);
    if p < head_a.len() {
        assert(tail_a.subrange(0, rows_a.len() as int) =~= rows_a);
        assert(tail_b.subrange(0, rows_b.len() as int) =~= rows_b);
        assert(tail_a.subrange((rows_a.len() + 4) as int, tail_a.len() as int) =~= a.path.flatten());
        assert(tail_b.subrange((rows_b.len() + 4) as int, tail_b.len() as int) =~= b.path.flatten());
        lemma_flatten_binding(a.lmots_signature.y, b.lmots_signature.y, n);
        lemma_flatten_binding(a.path, b.path, lms.m());
    } else {
        assert(head_a.subrange(0, 4) =~= spec_u32str(a.q));
        assert(head_b.subrange(0, 4) =~= spec_u32str(b.q));
        assert(head_a.subrange(8, head_a.len() as int) =~= a.lmots_signature.c);
        assert(head_b.subrange(8, head_b.len() as int) =~= b.lmots_signature.c);
    }
}

} // verus!
