//! What holds of every key, message and signature of the scheme.

use vstd::prelude::*;
use crate::error::LmsError;
use crate::hss::definitions::{
    lemma_leaf_indices, lemma_sign_then_verify, spec_advance, spec_hss_public_key, spec_hss_sign,
    spec_hss_verify, spec_leaf_indices, spec_sign_result, spec_signature_leaves, HssSignatureView,
};
use crate::hss::parameter::{
    lemma_capacity_bound,
    spec_capacity,
    spec_total_height,
    LevelParameter,
};
use crate::hss::rfc_private_key::RfcPrivateKeyView;
use crate::util::ustr::spec_u64str;

verus! {

/// The state of a key after it has made `k` more signatures.
pub open spec fn spec_advance_by(key: RfcPrivateKeyView, k: nat) -> RfcPrivateKeyView
    decreases k,
{
    if k == 0 {
        key
    } else {
        spec_advance(spec_advance_by(key, (k - 1) as nat))
    }
}

/// Whatever a key signs verifies under its public key: where signing
/// succeeds, the signature that it hands out is accepted for the message
/// under the public key of the key.
pub proof fn theorem_round_trip(key: RfcPrivateKeyView, message: Seq<u8>, c: Seq<u8>)
    requires
        key.wf(),
        spec_sign_result(key, message, c) is Ok,
    ensures
        spec_hss_verify(spec_sign_result(key, message, c)->Ok_0.0, spec_hss_public_key(key), message),
        spec_hss_public_key(spec_sign_result(key, message, c)->Ok_0.1) == spec_hss_public_key(key),
{
    lemma_sign_then_verify(key, message, c);
}

/// Signing is a function of the key's state, the message and the
/// randomiser: two keys with the same root seed, the same parameter sets
/// and the same counter sign the same message under the same randomiser
/// with the same bytes.
pub proof fn theorem_signing_is_deterministic(
    a: RfcPrivateKeyView,
    b: RfcPrivateKeyView,
    message: Seq<u8>,
    c: Seq<u8>,
)
    requires
        a.seed == b.seed,
        a.parameters == b.parameters,
        a.q == b.q,
        spec_sign_result(a, message, c) is Ok,
    ensures
        spec_sign_result(b, message, c) is Ok,
        spec_sign_result(a, message, c)->Ok_0.0.serialize() == spec_sign_result(
            b,
            message,
            c,
        )->Ok_0.0.serialize(),
{
}

/// Every successful signature moves the counter on by exactly one, and
/// nothing else changes; every refusal leaves the state as it was.
pub proof fn theorem_counter_step(key: RfcPrivateKeyView, message: Seq<u8>, c: Seq<u8>)
    requires
        key.wf(),
    ensures
        spec_sign_result(key, message, c) matches Ok(r) ==> (r.1.q == key.q + 1 && r.1.parameters
            == key.parameters && r.1.seed == key.seed && r.1.wf()),
        spec_sign_result(key, message, c) is Ok <==> (key.q < spec_capacity(key.parameters) && c.len()
            == key.n()),
{
    lemma_capacity_bound(key.parameters);
}

/// After `k` signatures in a row the counter stands at its first value
/// plus `k`, in the state and in the first eight bytes of its bytes on
/// disk; and as long as that is less than the key's capacity, the key has
/// not refused on the way.
pub proof fn theorem_counter_after(key: RfcPrivateKeyView, k: nat)
    requires
        key.wf(),
        key.q + k <= spec_capacity(key.parameters),
    ensures
        spec_advance_by(key, k).q == key.q + k,
        spec_advance_by(key, k).parameters == key.parameters,
        spec_advance_by(key, k).seed == key.seed,
        spec_advance_by(key, k).wf(),
        spec_advance_by(key, k).serialize().subrange(0, 8) == spec_u64str((key.q + k) as u64),
        forall|j: nat, message: Seq<u8>, c: Seq<u8>|
            j < k && c.len() == key.n() ==> (#[trigger] spec_sign_result(
                spec_advance_by(key, j),
                message,
                c,
            )) == Ok::<(HssSignatureView, RfcPrivateKeyView), LmsError>(
                (spec_hss_sign(spec_advance_by(key, j), message, c), spec_advance_by(key, j + 1)),
            ),
    decreases k,
{
    lemma_capacity_bound(key.parameters);
    crate::util::ustr::lemma_str_of_ustr(0, 0, (key.q + k) as u64);
    if k > 0 {
        theorem_counter_after(key, (k - 1) as nat);
        assert forall|j: nat, message: Seq<u8>, c: Seq<u8>| j < k && c.len() == key.n() implies (
        #[trigger] spec_sign_result(spec_advance_by(key, j), message, c)) == Ok::<
            (HssSignatureView, RfcPrivateKeyView),
            LmsError,
        >((spec_hss_sign(spec_advance_by(key, j), message, c), spec_advance_by(key, j + 1))) by {
            theorem_counter_after(key, j);
        }
    }
    assert(spec_advance_by(key, k).serialize().subrange(0, 8) =~= spec_u64str((key.q + k) as u64));
}

/// A fresh key signs exactly as many messages as it has leaf paths: once
/// the counter has reached the capacity, the product of the leaf counts
/// of all levels, every further call is refused as `KeyExhausted`, for
/// every message and randomiser, and the state stays as it is.
pub proof fn theorem_exhaustion(key: RfcPrivateKeyView, message: Seq<u8>, c: Seq<u8>)
    requires
        key.wf(),
        key.q == 0,
    ensures
        spec_sign_result(spec_advance_by(key, spec_capacity(key.parameters)), message, c) == Err::<
            (HssSignatureView, RfcPrivateKeyView),
            LmsError,
        >(LmsError::KeyExhausted),
{
    theorem_counter_after(key, spec_capacity(key.parameters));
}

/// The capacity of the levels without the last, times the leaves of the
/// last level, is the capacity of all levels.
proof fn lemma_capacity_split(parameters: Seq<LevelParameter>)
    requires
        parameters.len() > 0,
    ensures
        spec_capacity(parameters) == spec_capacity(parameters.drop_last()) * parameters.last().1.leaves(),
        parameters.last().1.leaves() > 0,
{
    parameters.last().1.lemma_sizes();
    vstd::arithmetic::power2::lemma_pow2_adds(
        spec_total_height(parameters.drop_last()),
        parameters.last().1.h(),
    );
}

/// Two counters below the capacity that send every level to the same
/// leaf are the same counter.
pub proof fn lemma_leaf_indices_injective(parameters: Seq<LevelParameter>, a: nat, b: nat)
    requires
        a < spec_capacity(parameters),
        b < spec_capacity(parameters),
        spec_leaf_indices(parameters, a) == spec_leaf_indices(parameters, b),
    ensures
        a == b,
    decreases parameters.len(),
{
    if parameters.len() == 0 {
        vstd::arithmetic::power2::lemma2_to64();
    } else {
        let leaves = parameters.last().1.leaves();
        let head = parameters.drop_last();
        lemma_capacity_split(parameters);
        let ia = spec_leaf_indices(head, a / leaves).push((a % leaves) as u32);
        let ib = spec_leaf_indices(head, b / leaves).push((b % leaves) as u32);
        assert(ia.drop_last() =~= spec_leaf_indices(head, a / leaves));
        assert(ib.drop_last() =~= spec_leaf_indices(head, b / leaves));
        assert(ia.last() == (a % leaves) as u32);
        assert(ib.last() == (b % leaves) as u32);
        parameters.last().1.lemma_sizes();
        assert(a / leaves < spec_capacity(head) && b / leaves < spec_capacity(head)) by (nonlinear_arith)
            requires
                a < spec_capacity(head) * leaves,
                b < spec_capacity(head) * leaves,
                leaves > 0,
        ;
        lemma_leaf_indices_injective(head, a / leaves, b / leaves);
        assert(a == leaves * (a / leaves) + a % leaves) by (nonlinear_arith)
            requires
                leaves > 0,
        ;
        assert(b == leaves * (b / leaves) + b % leaves) by (nonlinear_arith)
            requires
                leaves > 0,
        ;
    }
}

/// The leaves named in a signature are the leaves that the counter
/// pointed to when it was made.
pub proof fn lemma_signature_leaves(key: RfcPrivateKeyView, message: Seq<u8>, c: Seq<u8>)
    requires
        key.wf(),
    ensures
        spec_signature_leaves(spec_hss_sign(key, message, c)) == spec_leaf_indices(
            key.parameters,
            key.q as nat,
        ),
{
    lemma_leaf_indices(key.parameters, key.q as nat);
    assert(spec_signature_leaves(spec_hss_sign(key, message, c)) =~= spec_leaf_indices(
        key.parameters,
        key.q as nat,
    ));
}

/// No leaf path signs twice: two signatures that one key hands out at
/// different counts of signatures made name different leaves at some
/// level, so that below the same chain of trees the two messages are
/// signed by different one-time keys.
pub proof fn theorem_no_reuse(
    first: RfcPrivateKeyView,
    second: RfcPrivateKeyView,
    m1: Seq<u8>,
    c1: Seq<u8>,
    m2: Seq<u8>,
    c2: Seq<u8>,
)
    requires
        first.wf(),
        second.parameters == first.parameters,
        second.seed == first.seed,
        second.q != first.q,
        spec_sign_result(first, m1, c1) is Ok,
        spec_sign_result(second, m2, c2) is Ok,
    ensures
        spec_signature_leaves(spec_sign_result(first, m1, c1)->Ok_0.0) != spec_signature_leaves(
            spec_sign_result(second, m2, c2)->Ok_0.0,
        ),
{
    lemma_signature_leaves(first, m1, c1);
    lemma_signature_leaves(second, m2, c2);
    if spec_leaf_indices(first.parameters, first.q as nat) == spec_leaf_indices(
        first.parameters,
        second.q as nat,
    ) {
        lemma_leaf_indices_injective(first.parameters, first.q as nat, second.q as nat);
    }
}

} // verus!
