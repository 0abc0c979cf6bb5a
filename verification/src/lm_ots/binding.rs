//! A one-time signature binds its message: whoever changes the message,
//! the randomiser or a chain value of a signature and still has it
//! accepted has found two byte strings with one digest.

use vstd::prelude::*;
use crate::hasher::{collides, digest, lemma_same_digest};
use crate::constants::{D_MESG, D_PBLC};
use crate::lm_ots::definitions::{
    lemma_chain_compose, lemma_chain_len, lemma_private_key_wf, spec_chain, spec_chain_ends,
    spec_chain_step, spec_digits, spec_private_key, spec_public_key, spec_public_key_candidate,
    spec_recover_chains, spec_secret, spec_sign, LmotsSignatureView,
};
use crate::lm_ots::digits::lemma_some_digit_is_smaller;
use crate::util::chunks::{lemma_chunks_flatten, uniform};
use crate::util::coef::{lemma_coef_bound, spec_coef};
use crate::lm_ots::parameter::LmotsAlgorithm;
use crate::util::ustr::{spec_u16str, spec_u8str};

verus! {

/// A step of a chain that takes two values to one has been fed one value
/// twice, or the digest collides.
pub proof fn lemma_step_binding(
    alg: LmotsAlgorithm,
    i: Seq<u8>,
    q: Seq<u8>,
    k: nat,
    j: nat,
    x: Seq<u8>,
    y: Seq<u8>,
)
    requires
        spec_chain_step(alg, i, q, k, j, x) == spec_chain_step(alg, i, q, k, j, y),
    ensures
        x == y || collides(alg.n()),
{
    let head = i + q + spec_u16str(k as u16) + spec_u8str(j as u8);
    lemma_same_digest(alg.n(), head + x, head + y);
    if head + x == head + y {
        assert((head + x).subrange(head.len() as int, (head + x).len() as int) =~= x);
        assert((head + y).subrange(head.len() as int, (head + y).len() as int) =~= y);
    }
}

/// Two steps of a chain with different numbers that give one value show
/// that the digest collides.
pub proof fn lemma_step_numbers(
    alg: LmotsAlgorithm,
    i: Seq<u8>,
    q: Seq<u8>,
    k: nat,
    j1: nat,
    j2: nat,
    x: Seq<u8>,
    y: Seq<u8>,
)
    requires
        j1 < 256,
        j2 < 256,
        j1 != j2,
        spec_chain_step(alg, i, q, k, j1, x) == spec_chain_step(alg, i, q, k, j2, y),
    ensures
        collides(alg.n()),
{
    let head = i + q + spec_u16str(k as u16);
    let a = head + spec_u8str(j1 as u8) + x;
    let b = head + spec_u8str(j2 as u8) + y;
    lemma_same_digest(alg.n(), a, b);
    assert(a[head.len() as int] == j1 as u8);
    assert(b[head.len() as int] == j2 as u8);
}

/// A step of a chain that gives the value of a secret shows that the
/// digest collides: a secret is derived under a number that no step has.
pub proof fn lemma_step_is_no_secret(
    alg: LmotsAlgorithm,
    i: Seq<u8>,
    q: Seq<u8>,
    k: nat,
    j: nat,
    x: Seq<u8>,
    seed: Seq<u8>,
)
    requires
        j < 255,
        spec_chain_step(alg, i, q, k, j, x) == spec_secret(alg, i, q, k, seed),
    ensures
        collides(alg.n()),
{
    let head = i + q + spec_u16str(k as u16);
    let a = head + spec_u8str(j as u8) + x;
    let b = head + seq![0xffu8] + seed;
    lemma_same_digest(alg.n(), a, b);
    assert(a[head.len() as int] == j as u8);
    assert(b[head.len() as int] == 0xffu8);
}

/// A stretch of a chain that takes two values to one has been fed one
/// value twice, or the digest collides.
pub proof fn lemma_chain_binding(
    alg: LmotsAlgorithm,
    i: Seq<u8>,
    q: Seq<u8>,
    k: nat,
    from: nat,
    to: nat,
    x: Seq<u8>,
    y: Seq<u8>,
)
    requires
        spec_chain(alg, i, q, k, from, to, x) == spec_chain(alg, i, q, k, from, to, y),
    ensures
        x == y || collides(alg.n()),
    decreases to,
{
    if to > from {
        let before_x = spec_chain(alg, i, q, k, from, (to - 1) as nat, x);
        let before_y = spec_chain(alg, i, q, k, from, (to - 1) as nat, y);
        lemma_step_binding(alg, i, q, k, (to - 1) as nat, before_x, before_y);
        if before_x == before_y {
            lemma_chain_binding(alg, i, q, k, from, (to - 1) as nat, x, y);
        }
    }
}

/// The value of chain `k` after `a` steps from its secret.
pub open spec fn spec_chain_value(alg: LmotsAlgorithm, i: Seq<u8>, q: Seq<u8>, k: nat, a: nat, seed: Seq<u8>) -> Seq<u8> {
    spec_chain(alg, i, q, k, 0, a, spec_secret(alg, i, q, k, seed))
}

/// The values of a chain after different numbers of steps differ, or the
/// digest collides.
pub proof fn lemma_chain_values_differ(
    alg: LmotsAlgorithm,
    i: Seq<u8>,
    q: Seq<u8>,
    k: nat,
    a: nat,
    b: nat,
    seed: Seq<u8>,
)
    requires
        a < b <= 255,
        spec_chain_value(alg, i, q, k, a, seed) == spec_chain_value(alg, i, q, k, b, seed),
    ensures
        collides(alg.n()),
{
    let x = spec_secret(alg, i, q, k, seed);
    let below_b = spec_chain(alg, i, q, k, 0, (b - 1) as nat, x);
    if a == 0 {
        lemma_step_is_no_secret(alg, i, q, k, (b - 1) as nat, below_b, seed);
    } else {
        let below_a = spec_chain(alg, i, q, k, 0, (a - 1) as nat, x);
        lemma_step_numbers(alg, i, q, k, (a - 1) as nat, (b - 1) as nat, below_a, below_b);
    }
}

/// A chain walked to its end from the value after `b` steps, as if that
/// value stood after only `a` steps, does not end where the chain ends,
/// or the digest collides.
pub proof fn lemma_chain_offset(
    alg: LmotsAlgorithm,
    i: Seq<u8>,
    q: Seq<u8>,
    k: nat,
    a: nat,
    b: nat,
    to: nat,
    seed: Seq<u8>,
)
    requires
        a < b <= 255,
        a <= to <= 255,
        spec_chain(alg, i, q, k, a, to, spec_chain_value(alg, i, q, k, b, seed)) == spec_chain_value(
            alg,
            i,
            q,
            k,
            to,
            seed,
        ),
    ensures
        collides(alg.n()),
    decreases to,
{
    let y = spec_chain_value(alg, i, q, k, b, seed);
    let x = spec_secret(alg, i, q, k, seed);
    if to == a {
        lemma_chain_values_differ(alg, i, q, k, a, b, seed);
    } else {
        let walked = spec_chain(alg, i, q, k, a, (to - 1) as nat, y);
        let honest = spec_chain(alg, i, q, k, 0, (to - 1) as nat, x);
        lemma_step_binding(alg, i, q, k, (to - 1) as nat, walked, honest);
        if walked == honest {
            lemma_chain_offset(alg, i, q, k, a, b, (to - 1) as nat, seed);
        }
    }
}

/// Rows of one length are determined by their concatenation.
pub proof fn lemma_flatten_binding(a: Seq<Seq<u8>>, b: Seq<Seq<u8>>, n: nat)
    requires
        uniform(a, n),
        uniform(b, n),
        a.len() == b.len(),
        a.flatten() == b.flatten(),
    ensures
        a == b,
{
    lemma_chunks_flatten(a, n);
    lemma_chunks_flatten(b, n);
}

/// Chain ends that give the public key of a one-time key are the ends of
/// its chains, or the digest collides.
proof fn lemma_ends_binding(
    alg: LmotsAlgorithm,
    i: Seq<u8>,
    q: Seq<u8>,
    seed: Seq<u8>,
    other: LmotsSignatureView,
    digits: Seq<u8>,
)
    requires
        other.wf(),
        other.parameter == alg,
        crate::lm_ots::definitions::spec_public_key_hash(
            alg,
            i,
            q,
            spec_recover_chains(alg, i, q, other.y, digits),
        ) == spec_public_key(alg, i, q, spec_private_key(alg, i, q, seed)),
    ensures
        spec_recover_chains(alg, i, q, other.y, digits) == spec_chain_ends(
            alg,
            i,
            q,
            spec_private_key(alg, i, q, seed),
        ) || collides(alg.n()),
{
    let key = spec_private_key(alg, i, q, seed);
    let ends = spec_chain_ends(alg, i, q, key);
    let found = spec_recover_chains(alg, i, q, other.y, digits);
    let head = i + q + spec_u16str(D_PBLC);
    lemma_private_key_wf(alg, i, q, seed);
    lemma_same_digest(alg.n(), head + found.flatten(), head + ends.flatten());
    if head + found.flatten() == head + ends.flatten() {
        let all = head + found.flatten();
        assert(all.subrange(head.len() as int, all.len() as int) =~= found.flatten());
        assert(all.subrange(head.len() as int, all.len() as int) =~= ends.flatten());
        assert forall|k: int| 0 <= k < found.len() implies (#[trigger] found[k]).len() == alg.n() by {
            lemma_chain_len(
                alg,
                i,
                q,
                k as nat,
                spec_coef(digits, k as nat, alg.w()) as nat,
                alg.max_digit(),
                other.y[k],
            );
        }
        assert forall|k: int| 0 <= k < ends.len() implies (#[trigger] ends[k]).len() == alg.n() by {
            lemma_chain_len(alg, i, q, k as nat, 0, alg.max_digit(), key[k]);
        }
        lemma_flatten_binding(found, ends, alg.n());
    }
}

/// A one-time signature binds what it signs. Take the signature that a
/// one-time key derived from a seed makes of a message under a
/// randomiser of `n` bytes, and change it or the message; leave either
/// the chain values or the randomiser and the message as they were. If
/// the public key recovered from the result is still the public key of
/// the one-time key, the digest collides.
pub proof fn theorem_one_time_binding(
    alg: LmotsAlgorithm,
    i: Seq<u8>,
    q: Seq<u8>,
    seed: Seq<u8>,
    c: Seq<u8>,
    message: Seq<u8>,
    other: LmotsSignatureView,
    other_message: Seq<u8>,
)
    requires
        c.len() == alg.n(),
        other.wf(),
        other.parameter == alg,
        other != spec_sign(alg, i, q, spec_private_key(alg, i, q, seed), c, message) || other_message
            != message,
        other.y == spec_sign(alg, i, q, spec_private_key(alg, i, q, seed), c, message).y || (other.c
            == c && other_message == message),
        spec_public_key_candidate(i, q, other, other_message) == spec_public_key(
            alg,
            i,
            q,
            spec_private_key(alg, i, q, seed),
        ),
    ensures
        collides(alg.n()),
{
    let key = spec_private_key(alg, i, q, seed);
    let honest = spec_sign(alg, i, q, key, c, message);
    let digits = spec_digits(alg, i, q, c, message);
    let other_digits = spec_digits(alg, i, q, other.c, other_message);
    let ends = spec_chain_ends(alg, i, q, key);
    let found = spec_recover_chains(alg, i, q, other.y, other_digits);
    let top = alg.max_digit();
    alg.lemma_sizes();
    lemma_ends_binding(alg, i, q, seed, other, other_digits);
    if found == ends {
        if other.c == c && other_message == message {
            assert(other.y != honest.y) by {
                if other.y == honest.y {
                    assert(other == honest);
                }
            }
            assert(!(other.y =~= honest.y));
            let k = choose|k: int| 0 <= k < alg.p() && other.y[k] != honest.y[k];
            let a = spec_coef(digits, k as nat, alg.w()) as nat;
            lemma_coef_bound(digits, k as nat, alg.w());
            lemma_chain_compose(alg, i, q, k as nat, 0, a, top, key[k]);
            assert(found[k] == ends[k]);
            lemma_chain_binding(alg, i, q, k as nat, a, top, other.y[k], honest.y[k]);
        } else {
            let head = i + q + spec_u16str(D_MESG);
            let hashed = digest(alg.n(), head + c + message);
            let other_hashed = digest(alg.n(), head + other.c + other_message);
            crate::hasher::lemma_digest_len(alg.n(), head + c + message);
            crate::hasher::lemma_digest_len(alg.n(), head + other.c + other_message);
            if hashed == other_hashed {
                lemma_same_digest(alg.n(), head + c + message, head + other.c + other_message);
                if head + c + message == head + other.c + other_message {
                    let all = head + c + message;
                    let cut = (head.len() + alg.n()) as int;
                    assert(all.subrange(head.len() as int, cut) =~= c);
                    assert(all.subrange(head.len() as int, cut) =~= other.c);
                    assert(all.subrange(cut, all.len() as int) =~= message);
                    assert(all.subrange(cut, all.len() as int) =~= other_message);
                    assert(other == honest);
                }
            } else {
                lemma_some_digit_is_smaller(alg, hashed, other_hashed);
                let k = choose|k: nat|
                    k < alg.p() && spec_coef(other_digits, k, alg.w()) < spec_coef(digits, k, alg.w());
                let a = spec_coef(other_digits, k, alg.w()) as nat;
                let b = spec_coef(digits, k, alg.w()) as nat;
                lemma_coef_bound(digits, k, alg.w());
                assert(found[k as int] == ends[k as int]);
                assert(other.y[k as int] == spec_chain_value(alg, i, q, k, b, seed));
                lemma_chain_offset(alg, i, q, k, a, b, top, seed);
            }
        }
    }
}

} // verus!
