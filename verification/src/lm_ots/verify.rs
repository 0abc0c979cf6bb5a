//! Checking a one-time signature: walking its chains to their ends.

use vstd::prelude::*;
use crate::constants::{D_MESG, D_PBLC};
use crate::hasher::lemma_digest_len;
use crate::lm_ots::definitions::{
    spec_public_key_candidate,
    spec_recover_chains,
    IType,
    LmotsPublicKey,
    QType,
};
use crate::lm_ots::keygen::chain;
use crate::lm_ots::signing::LmotsSignature;
use crate::util::coef::coef;
use crate::util::compare::bytes_equal;
use crate::util::ustr::{spec_u16str, u16str};

verus! {

/// Whether `signature` signs `message` under `public_key`: the signature
/// is well formed, the parameter sets agree and the key recovered from
/// the signature is the public key.
pub open spec fn spec_verify_signature(
    signature: crate::lm_ots::definitions::LmotsSignatureView,
    parameter: crate::lm_ots::parameter::LmotsAlgorithm,
    i: Seq<u8>,
    q: Seq<u8>,
    key: Seq<u8>,
    message: Seq<u8>,
) -> bool {
    &&& signature.wf()
    &&& signature.parameter == parameter
    &&& spec_public_key_candidate(i, q, signature, message) == key
}

/// The public key that `signature` would belong to if it signed `message`
/// at leaf `q` of tree `i`.
pub fn generate_public_key_candidate(signature: &LmotsSignature, i: &IType, q: &QType, message: &[u8]) -> (r:
    Vec<u8>)
    requires
        signature.wf(),
    ensures
        r@ == spec_public_key_candidate(i@, q@, signature@, message@),
        r@.len() == signature.parameter.n(),
{
    let parameter = signature.parameter;
    let p: u16 = parameter.get_p();
    let w: u8 = parameter.get_w();
    let top: u8 = parameter.get_max_digit();
    let mut hasher = parameter.get_hasher();
    hasher.update(i);
    hasher.update(q);
    hasher.update(&u16str(D_MESG));
    hasher.update(signature.c.as_slice());
    hasher.update(message);
    let ghost input = hasher@;
    let digest = hasher.finalize_reset();
    proof {
        parameter.lemma_sizes();
        assert(input =~= i@ + q@ + spec_u16str(D_MESG) + signature.c@ + message@);
        lemma_digest_len(parameter.n(), input);
    }
    let digits = parameter.get_appended_with_checksum(digest.as_slice());
    let ghost ends = spec_recover_chains(parameter, i@, q@, signature@.y, digits@);
    let ghost head = i@ + q@ + spec_u16str(D_PBLC);
    let mut outer = parameter.get_hasher();
    outer.update(i);
    outer.update(q);
    outer.update(&u16str(D_PBLC));
    let mut k: u16 = 0;
    proof {
        assert(outer@ =~= head);
        assert(ends.subrange(0, 0).flatten() =~= Seq::<u8>::empty());
        assert(head + Seq::<u8>::empty() =~= head);
    }
    while k < p
        invariant
            k <= p,
            p == parameter.p(),
            w == parameter.w(),
            top == parameter.max_digit(),
            parameter == signature.parameter,
            signature.wf(),
            digits@.len() == parameter.n() + 2,
            parameter.p() * parameter.w() <= 8 * (parameter.n() + 2),
            crate::util::coef::valid_width(w as nat),
            outer.wf(),
            outer.output_len() == parameter.n(),
            ends == spec_recover_chains(parameter, i@, q@, signature@.y, digits@),
            outer@ == head + ends.subrange(0, k as int).flatten(),
        decreases p - k,
    {
        assert((k as nat) * (w as nat) / 8 < digits@.len()) by (nonlinear_arith)
            requires
                k < p,
                p * w <= 8 * digits@.len(),
                w > 0,
        ;
        let a: u8 = coef(digits.as_slice(), k, w);
        assert(signature@.y[k as int] == signature.y[k as int]@);
        let end = chain(parameter, i, q, k, a, top, signature.y[k as usize].as_slice());
        outer.update(end.as_slice());
        proof {
            assert(end@ == ends[k as int]);
            assert(ends.subrange(0, k + 1) =~= ends.subrange(0, k as int).push(end@));
            ends.subrange(0, k as int).lemma_flatten_push(end@);
            assert(outer@ =~= head + ends.subrange(0, k + 1).flatten());
        }
        k += 1;
    }
    proof {
        assert(ends.subrange(0, p as int) =~= ends);
        lemma_digest_len(parameter.n(), head + ends.flatten());
    }
    outer.finalize()
}

/// Checks `signature` on `message` against a one-time public key.
pub fn verify_signature(signature: &LmotsSignature, public_key: &LmotsPublicKey, message: &[u8]) -> (r:
    bool)
    ensures
        r == spec_verify_signature(
            signature@,
            public_key.parameter,
            public_key.i@,
            public_key.q@,
            public_key.key@,
            message@,
        ),
{
    if !signature.is_well_formed() || signature.parameter != public_key.parameter {
        return false;
    }
    let candidate = generate_public_key_candidate(signature, &public_key.i, &public_key.q, message);
    bytes_equal(candidate.as_slice(), public_key.key.as_slice())
}

} // verus!
