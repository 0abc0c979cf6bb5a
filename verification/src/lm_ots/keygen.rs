//! Deriving a one-time key from a tree's seed, and its public key from it.

use vstd::prelude::*;
use vstd::slice::slice_to_vec;
use crate::constants::D_PBLC;
use crate::hasher::sha256::{compress, sha256, spec_padding, spec_state_bytes, IV};
use crate::hasher::{lemma_digest_len, lemma_single_block, padded_block, state_byte};
use crate::lm_ots::definitions::{
    spec_chain, spec_chain_ends, spec_chain_step, spec_private_key, spec_public_key, spec_secret, IType,
    LmotsPrivateKey, LmotsPublicKey, QType,
};
use crate::lm_ots::parameter::LmotsAlgorithm;
use crate::util::chunks::spec_rows;
use crate::util::ustr::{spec_u16str, spec_u8str, u16str, u8str};

verus! {

/// The one-time key at leaf `q` of tree `i`: its `p` secrets, each the
/// digest of the tree's seed under the leaf and the secret's number.
pub fn generate_private_key(parameter: LmotsAlgorithm, i: IType, q: QType, seed: &[u8]) -> (r:
    LmotsPrivateKey)
    ensures
        r.wf(),
        r.parameter == parameter,
        r.i == i,
        r.q == q,
        r.secrets() == spec_private_key(parameter, i@, q@, seed@),
{
    let p: u16 = parameter.get_p();
    let mut hasher = parameter.get_hasher();
    let mut key: Vec<Vec<u8>> = Vec::new();
    let mut k: u16 = 0;
    let ff: [u8; 1] = [0xff];
    proof {
        parameter.lemma_sizes();
        assert(ff@ =~= seq![0xffu8]);
    }
    while k < p
        invariant
            k <= p,
            p == parameter.p(),
            parameter.n() <= 32,
            ff@ == seq![0xffu8],
            hasher.wf(),
            hasher@ == Seq::<u8>::empty(),
            hasher.output_len() == parameter.n(),
            key@.len() == k,
            forall|j: int|
                0 <= j < k ==> (#[trigger] key@[j])@ == spec_secret(
                    parameter,
                    i@,
                    q@,
                    j as nat,
                    seed@,
                ),
        decreases p - k,
    {
        hasher.update(&i);
        hasher.update(&q);
        hasher.update(&u16str(k));
        hasher.update(&ff);
        hasher.update(seed);
        let ghost input = hasher@;
        let secret = hasher.finalize_reset();
        key.push(secret);
        proof {
            assert(input =~= i@ + q@ + spec_u16str(k) + seq![0xffu8] + seed@);
        }
        k += 1;
    }
    proof {
        assert(spec_rows(key@) =~= spec_private_key(parameter, i@, q@, seed@));
        assert forall|j: int| 0 <= j < spec_rows(key@).len() implies (#[trigger] spec_rows(key@)[j]).len()
            == parameter.n() by {
            lemma_digest_len(
                parameter.n(),
                i@ + q@ + spec_u16str(j as u16) + seq![0xffu8] + seed@,
            );
        }
    }
    LmotsPrivateKey::new(i, q, parameter, key)
}

/// Walks hash chain `k` from step `from` up to step `to`, starting at `x`.
///
/// After the first step every input of the chain is as long as the one
/// before it and fills one block of the digest with its padding: the
/// block is built once, and each step rewrites the step number and the
/// value in it.
pub fn chain(parameter: LmotsAlgorithm, i: &IType, q: &QType, k: u16, from: u8, to: u8, x: &[u8]) -> (r:
    Vec<u8>)
    ensures
        r@ == spec_chain(parameter, i@, q@, k as nat, from as nat, to as nat, x@),
{
    if to <= from {
        return slice_to_vec(x);
    }
    let n: usize = parameter.get_n();
    let index: [u8; 2] = u16str(k);
    let ghost head = i@ + q@ + spec_u16str(k);
    let mut hasher = parameter.get_hasher();
    hasher.update(i);
    hasher.update(q);
    hasher.update(&index);
    hasher.update(&u8str(from));
    hasher.update(x);
    assert(hasher@ =~= head + spec_u8str(from) + x@);
    let first = hasher.finalize();
    proof {
        parameter.lemma_sizes();
        lemma_digest_len(parameter.n(), head + spec_u8str(from) + x@);
        assert(first@ == spec_chain_step(parameter, i@, q@, k as nat, from as nat, x@));
    }
    let mut message: Vec<u8> = Vec::new();
    message.extend_from_slice(i);
    message.extend_from_slice(q);
    message.extend_from_slice(&index);
    message.push(from);
    message.extend_from_slice(first.as_slice());
    assert(message@ =~= head + seq![from] + first@);
    let mut block = padded_block(message.as_slice());
    let ghost tail = spec_padding((23 + n) as nat);
    let ghost mut value = first@;
    let mut j: u8 = from + 1;
    assert(block@ =~= head + seq![from] + value + tail);
    assert(spec_chain(parameter, i@, q@, k as nat, from as nat, from as nat, x@) == x@);
    assert(value == spec_chain(parameter, i@, q@, k as nat, from as nat, (from + 1) as nat, x@));
    while j < to
        invariant
            from < j <= to,
            n == parameter.n(),
            n == 32 || n == 24,
            head == i@ + q@ + spec_u16str(k),
            head.len() == 22,
            tail == spec_padding((23 + n) as nat),
            value.len() == n,
            block@.len() == 64,
            block@ == head + seq![(j - 1) as u8] + value + tail,
            value == spec_chain(parameter, i@, q@, k as nat, from as nat, j as nat, x@),
        decreases to - j,
    {
        block.set(22, j);
        let ghost input = head + seq![j] + value;
        proof {
            assert(block@ =~= input + tail);
            lemma_single_block(input);
            reveal(sha256);
        }
        let mut state: [u32; 8] = IV;
        compress(&mut state, block.as_slice());
        let ghost digest_bytes = spec_state_bytes(state@);
        let ghost base = block@;
        assert(base == input + tail);
        let mut t: usize = 0;
        while t < n
            invariant
                t <= n <= 32,
                block@.len() == 64,
                base.len() == 64,
                forall|s: int| 0 <= s < 23 ==> block@[s] == base[s],
                forall|s: int| 23 + n <= s < 64 ==> block@[s] == base[s],
                forall|s: int| 0 <= s < t ==> block@[23 + s] == digest_bytes[s],
                digest_bytes == spec_state_bytes(state@),
            decreases n - t,
        {
            let b: u8 = state_byte(&state, t);
            block.set(23 + t, b);
            t += 1;
        }
        proof {
            let next = digest_bytes.subrange(0, n as int);
            assert(next == spec_chain_step(parameter, i@, q@, k as nat, j as nat, value)) by {
                assert(digest_bytes.subrange(0, 32) =~= digest_bytes);
                assert(input =~= i@ + q@ + spec_u16str(k) + spec_u8str(j) + value);
            }
            assert(base == input + tail);
            assert(next.len() == n);
            assert forall|s: int| 0 <= s < 64 implies block@[s] == (head + seq![j] + next + tail)[s] by {
                if s < 23 {
                    assert(block@[s] == base[s]);
                } else if s < 23 + n {
                    assert(block@[23 + (s - 23)] == digest_bytes[s - 23]);
                } else {
                    assert(block@[s] == base[s]);
                }
            }
            assert(block@ =~= head + seq![j] + next + tail);
            value = next;
        }
        j += 1;
    }
    let mut r: Vec<u8> = Vec::new();
    r.extend_from_slice(vstd::slice::slice_subrange(block.as_slice(), 23, 23 + n));
    assert(r@ =~= value);
    r
}

/// The public key of a one-time key: the digest of the ends of its `p`
/// hash chains.
pub fn generate_public_key(private_key: &LmotsPrivateKey) -> (r: LmotsPublicKey)
    requires
        private_key.wf(),
    ensures
        r.parameter == private_key.parameter,
        r.i == private_key.i,
        r.q == private_key.q,
        r.key@ == spec_public_key(
            private_key.parameter,
            private_key.i@,
            private_key.q@,
            private_key.secrets(),
        ),
        r.key@.len() == private_key.parameter.n(),
{
    let parameter = private_key.parameter;
    let p: u16 = parameter.get_p();
    let top: u8 = parameter.get_max_digit();
    let mut outer = parameter.get_hasher();
    outer.update(&private_key.i);
    outer.update(&private_key.q);
    outer.update(&u16str(D_PBLC));
    let ghost head = private_key.i@ + private_key.q@ + spec_u16str(D_PBLC);
    let ghost ends = spec_chain_ends(
        parameter,
        private_key.i@,
        private_key.q@,
        private_key.secrets(),
    );
    let mut k: u16 = 0;
    proof {
        parameter.lemma_sizes();
        assert(outer@ =~= head);
        assert(ends.subrange(0, 0).flatten() =~= Seq::<u8>::empty());
        assert(head + Seq::<u8>::empty() =~= head);
    }
    while k < p
        invariant
            k <= p,
            p == parameter.p(),
            top == parameter.max_digit(),
            parameter == private_key.parameter,
            private_key.wf(),
            outer.wf(),
            outer.output_len() == parameter.n(),
            ends == spec_chain_ends(
                parameter,
                private_key.i@,
                private_key.q@,
                private_key.secrets(),
            ),
            outer@ == head + ends.subrange(0, k as int).flatten(),
        decreases p - k,
    {
        assert(private_key.secrets()[k as int] == private_key.key[k as int]@);
        let end = chain(
            parameter,
            &private_key.i,
            &private_key.q,
            k,
            0,
            top,
            private_key.key[k as usize].as_slice(),
        );
        outer.update(end.as_slice());
        proof {
            assert(end@ == ends[k as int]);
            assert(ends.subrange(0, k + 1) =~= ends.subrange(0, k as int).push(end@));
            ends.subrange(0, k as int).lemma_flatten_push(end@);
            assert(outer@ =~= head + ends.subrange(0, k + 1).flatten());
        }
        k += 1;
    }
    proof {
        assert(ends.subrange(0, p as int) =~= ends);
        lemma_digest_len(parameter.n(), head + ends.flatten());
    }
    let key = outer.finalize();
    LmotsPublicKey::new(private_key.i, private_key.q, parameter, key)
}

} // verus!
