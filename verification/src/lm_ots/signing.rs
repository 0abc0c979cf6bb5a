//! Signing with a one-time key, and the wire form of the signature.

use vstd::prelude::*;
use vstd::slice::{slice_subrange, slice_to_vec};
use crate::constants::D_MESG;
use crate::hasher::lemma_digest_len;
use crate::lm_ots::definitions::{
    spec_parse_signature,
    spec_sign,
    spec_sign_chains,
    LmotsPrivateKey,
    LmotsSignatureView,
};
use crate::lm_ots::keygen::chain;
use crate::lm_ots::parameter::LmotsAlgorithm;
use crate::util::chunks::{append_rows, read_rows, rows_uniform, spec_rows};
use crate::util::coef::coef;
use crate::util::ustr::{spec_u16str, spec_u32str, str32u, u16str, u32str};

verus! {

/// A one-time signature: the parameter set, the randomiser `C` and one
/// value on each of the `p` hash chains.
pub struct LmotsSignature {
    pub parameter: LmotsAlgorithm,
    pub c: Vec<u8>,
    pub y: Vec<Vec<u8>>,
}

impl View for LmotsSignature {
    type V = LmotsSignatureView;

    open spec fn view(&self) -> LmotsSignatureView {
        LmotsSignatureView { parameter: self.parameter, c: self.c@, y: spec_rows(self.y@) }
    }
}

impl LmotsSignature {
    /// The randomiser and the chain values have the lengths that the
    /// parameter set gives them.
    pub open spec fn wf(&self) -> bool {
        self@.wf()
    }

    /// Checks the lengths of the randomiser and the chain values.
    pub fn is_well_formed(&self) -> (r: bool)
        ensures
            r == self.wf(),
    {
        let n: usize = self.parameter.get_n();
        self.c.len() == n && self.y.len() == self.parameter.get_p() as usize && rows_uniform(
            &self.y,
            n,
        )
    }

    /// Signs `message` with the one-time key, under the randomiser `c`.
    ///
    /// The key must never sign a second message.
    pub fn sign(private_key: &LmotsPrivateKey, message: &[u8], c: &[u8]) -> (signature: Self)
        requires
            private_key.wf(),
        ensures
            signature@ == spec_sign(
                private_key.parameter,
                private_key.i@,
                private_key.q@,
                private_key.secrets(),
                c@,
                message@,
            ),
            c@.len() == private_key.parameter.n() ==> signature.wf(),
    {
        let parameter = private_key.parameter;
        let p: u16 = parameter.get_p();
        let w: u8 = parameter.get_w();
        let mut hasher = parameter.get_hasher();
        hasher.update(&private_key.i);
        hasher.update(&private_key.q);
        hasher.update(&u16str(D_MESG));
        hasher.update(c);
        hasher.update(message);
        let ghost input = hasher@;
        let digest = hasher.finalize_reset();
        proof {
            parameter.lemma_sizes();
            assert(input =~= private_key.i@ + private_key.q@ + spec_u16str(D_MESG) + c@ + message@);
            lemma_digest_len(parameter.n(), input);
        }
        let digits = parameter.get_appended_with_checksum(digest.as_slice());
        let ghost want = spec_sign_chains(
            parameter,
            private_key.i@,
            private_key.q@,
            private_key.secrets(),
            digits@,
        );
        let mut y: Vec<Vec<u8>> = Vec::new();
        let mut k: u16 = 0;
        while k < p
            invariant
                k <= p,
                p == parameter.p(),
                w == parameter.w(),
                parameter == private_key.parameter,
                private_key.wf(),
                digits@.len() == parameter.n() + 2,
                parameter.p() * parameter.w() <= 8 * (parameter.n() + 2),
                crate::util::coef::valid_width(w as nat),
                want == spec_sign_chains(
                    parameter,
                    private_key.i@,
                    private_key.q@,
                    private_key.secrets(),
                    digits@,
                ),
                y@.len() == k,
                forall|j: int| 0 <= j < k ==> (#[trigger] y@[j])@ == want[j],
                forall|j: int| 0 <= j < k ==> (#[trigger] y@[j])@.len() == parameter.n(),
            decreases p - k,
        {
            assert((k as nat) * (w as nat) / 8 < digits@.len()) by (nonlinear_arith)
                requires
                    k < p,
                    p * w <= 8 * digits@.len(),
                    w > 0,
            ;
            let a: u8 = coef(digits.as_slice(), k, w);
            assert(private_key.secrets()[k as int] == private_key.key[k as int]@);
            let value = chain(
                parameter,
                &private_key.i,
                &private_key.q,
                k,
                0,
                a,
                private_key.key[k as usize].as_slice(),
            );
            proof {
                crate::lm_ots::definitions::lemma_chain_len(
                    parameter,
                    private_key.i@,
                    private_key.q@,
                    k as nat,
                    0,
                    a as nat,
                    private_key.secrets()[k as int],
                );
            }
            y.push(value);
            k += 1;
        }
        let signature = LmotsSignature { parameter, c: slice_to_vec(c), y };
        assert(signature@.y =~= want);
        signature
    }

    /// The bytes of the signature on the wire.
    pub fn to_binary_representation(&self) -> (r: Vec<u8>)
        ensures
            r@ == self@.serialize(),
    {
        let mut r: Vec<u8> = Vec::new();
        r.extend_from_slice(&u32str(self.parameter.get_type()));
        r.extend_from_slice(self.c.as_slice());
        assert(r@ =~= spec_u32str(self.parameter.type_code()) + self.c@);
        append_rows(&mut r, &self.y);
        r
    }

    /// Reads a signature off the wire. `None` where `data` is shorter than
    /// a type code, opens with a code that is not registered, or is not
    /// exactly as long as a signature of its type.
    pub fn from_binary_representation(data: &[u8]) -> (r: Option<Self>)
        ensures
            match r {
                Some(signature) => spec_parse_signature(data@) == Some(signature@) && signature.wf(),
                None => spec_parse_signature(data@) is None,
            },
    {
        if data.len() < 4 {
            return None;
        }
        let code: u32 = str32u(slice_subrange(data, 0, 4));
        let parameter = match LmotsAlgorithm::from_u32(code) {
            None => {
                return None;
            },
            Some(x) => x,
        };
        let n: usize = parameter.get_n();
        let p: usize = parameter.get_p() as usize;
        proof {
            parameter.lemma_sizes();
            assert(n * (p + 1) == n + p * n) by (nonlinear_arith);
        }
        if data.len() != 4 + n * (p + 1) {
            return None;
        }
        let c = slice_to_vec(slice_subrange(data, 4, 4 + n));
        let y = read_rows(slice_subrange(data, 4 + n, data.len()), n, p);
        let signature = LmotsSignature { parameter, c, y };
        proof {
            crate::lm_ots::definitions::lemma_serialize_parse(data@);
        }
        Some(signature)
    }
}

} // verus!
