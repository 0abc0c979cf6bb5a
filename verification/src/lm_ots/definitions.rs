//! What a one-time key and its signature are, as mathematics on bytes.

use vstd::prelude::*;
use crate::constants::{D_MESG, D_PBLC};
use crate::hasher::digest;
use crate::lm_ots::parameter::LmotsAlgorithm;
use crate::util::chunks::{
    lemma_chunks_flatten, lemma_flatten_chunks, lemma_flatten_len, spec_chunks, spec_rows, uniform,
};
use crate::util::coef::{lemma_coef_bound, spec_coef};
use crate::util::ustr::{
    lemma_str_of_ustr, lemma_ustr_of_str, spec_str32u, spec_u16str, spec_u32str, spec_u8str,
};

verus! {

/// A tree identifier.
pub type IType = [u8; 16];

/// A leaf index, in its four big-endian bytes.
pub type QType = [u8; 4];

/// Secret `k` of the one-time key at leaf `q` of tree `i`, derived from the
/// tree's seed.
pub open spec fn spec_secret(alg: LmotsAlgorithm, i: Seq<u8>, q: Seq<u8>, k: nat, seed: Seq<u8>) -> Seq<u8> {
    digest(alg.n(), i + q + spec_u16str(k as u16) + seq![0xffu8] + seed)
}

/// All `p` secrets of the one-time key at leaf `q` of tree `i`.
pub open spec fn spec_private_key(alg: LmotsAlgorithm, i: Seq<u8>, q: Seq<u8>, seed: Seq<u8>) -> Seq<Seq<u8>> {
    Seq::new(alg.p(), |k: int| spec_secret(alg, i, q, k as nat, seed))
}

/// Step `j` of hash chain `k`, applied to `x`.
pub open spec fn spec_chain_step(alg: LmotsAlgorithm, i: Seq<u8>, q: Seq<u8>, k: nat, j: nat, x: Seq<u8>) -> Seq<u8> {
    digest(alg.n(), i + q + spec_u16str(k as u16) + spec_u8str(j as u8) + x)
}

/// Steps `from`, `from + 1`, ..., `to - 1` of hash chain `k`, applied to
/// `x` in that order.
pub open spec fn spec_chain(
    alg: LmotsAlgorithm,
    i: Seq<u8>,
    q: Seq<u8>,
    k: nat,
    from: nat,
    to: nat,
    x: Seq<u8>,
) -> Seq<u8>
    decreases to,
{
    if to <= from {
        x
    } else {
        spec_chain_step(alg, i, q, k, (to - 1) as nat, spec_chain(alg, i, q, k, from, (to - 1) as nat, x))
    }
}

/// The ends of the `p` hash chains that start at the secrets `key`.
pub open spec fn spec_chain_ends(alg: LmotsAlgorithm, i: Seq<u8>, q: Seq<u8>, key: Seq<Seq<u8>>) -> Seq<Seq<u8>> {
    Seq::new(alg.p(), |k: int| spec_chain(alg, i, q, k as nat, 0, alg.max_digit(), key[k]))
}

/// The hash that binds `p` chain ends into a one-time public key.
pub open spec fn spec_public_key_hash(alg: LmotsAlgorithm, i: Seq<u8>, q: Seq<u8>, ends: Seq<Seq<u8>>) -> Seq<u8> {
    digest(alg.n(), i + q + spec_u16str(D_PBLC) + ends.flatten())
}

/// The one-time public key `K` of the secrets `key`.
pub open spec fn spec_public_key(alg: LmotsAlgorithm, i: Seq<u8>, q: Seq<u8>, key: Seq<Seq<u8>>) -> Seq<u8> {
    spec_public_key_hash(alg, i, q, spec_chain_ends(alg, i, q, key))
}

/// The randomised digest of a message, followed by its checksum: the
/// digits that a signature reveals.
pub open spec fn spec_digits(alg: LmotsAlgorithm, i: Seq<u8>, q: Seq<u8>, c: Seq<u8>, message: Seq<u8>) -> Seq<u8> {
    alg.appended_with_checksum(digest(alg.n(), i + q + spec_u16str(D_MESG) + c + message))
}

/// The chain values of a signature: chain `k` walked from its secret as
/// many steps as digit `k` says.
pub open spec fn spec_sign_chains(
    alg: LmotsAlgorithm,
    i: Seq<u8>,
    q: Seq<u8>,
    key: Seq<Seq<u8>>,
    digits: Seq<u8>,
) -> Seq<Seq<u8>> {
    Seq::new(
        alg.p(),
        |k: int| spec_chain(alg, i, q, k as nat, 0, spec_coef(digits, k as nat, alg.w()) as nat, key[k]),
    )
}

/// The chain ends that a signature's chain values lead to: chain `k`
/// walked on from digit `k` to the end.
pub open spec fn spec_recover_chains(
    alg: LmotsAlgorithm,
    i: Seq<u8>,
    q: Seq<u8>,
    y: Seq<Seq<u8>>,
    digits: Seq<u8>,
) -> Seq<Seq<u8>> {
    Seq::new(
        alg.p(),
        |k: int|
            spec_chain(
                alg,
                i,
                q,
                k as nat,
                spec_coef(digits, k as nat, alg.w()) as nat,
                alg.max_digit(),
                y[k],
            ),
    )
}

/// A one-time signature: the parameter set, the randomiser `C` and the
/// `p` chain values.
pub struct LmotsSignatureView {
    pub parameter: LmotsAlgorithm,
    pub c: Seq<u8>,
    pub y: Seq<Seq<u8>>,
}

impl LmotsSignatureView {
    /// The randomiser and the chain values have the lengths that the
    /// parameter set gives them.
    pub open spec fn wf(self) -> bool {
        &&& self.c.len() == self.parameter.n()
        &&& self.y.len() == self.parameter.p()
        &&& uniform(self.y, self.parameter.n())
    }

    /// The bytes of the signature on the wire: the type code, the
    /// randomiser and the chain values in order.
    pub open spec fn serialize(self) -> Seq<u8> {
        spec_u32str(self.parameter.type_code()) + self.c + self.y.flatten()
    }
}

/// The signature that `data` encodes: `data` opens with a registered type
/// code and is exactly as long as a signature of that type.
pub open spec fn spec_parse_signature(data: Seq<u8>) -> Option<LmotsSignatureView> {
    if data.len() < 4 {
        None
    } else {
        match LmotsAlgorithm::spec_from_u32(spec_str32u(data.subrange(0, 4))) {
            None => None,
            Some(alg) => if data.len() != alg.signature_len() {
                None
            } else {
                Some(
                    LmotsSignatureView {
                        parameter: alg,
                        c: data.subrange(4, (4 + alg.n()) as int),
                        y: spec_chunks(data.subrange((4 + alg.n()) as int, data.len() as int), alg.n(), alg.p()),
                    },
                )
            },
        }
    }
}

/// The wire form of a signature has the length that its type gives it.
pub proof fn lemma_serialize_len(v: LmotsSignatureView)
    requires
        v.wf(),
    ensures
        v.serialize().len() == v.parameter.signature_len(),
{
    let alg = v.parameter;
    alg.lemma_sizes();
    lemma_flatten_len(v.y, alg.n());
    lemma_str_of_ustr(0, alg.type_code(), 0);
}

/// Parsing the wire form of a signature gives the signature back.
pub proof fn lemma_parse_serialize(v: LmotsSignatureView)
    requires
        v.wf(),
    ensures
        spec_parse_signature(v.serialize()) == Some(v),
{
    let alg = v.parameter;
    let s = v.serialize();
    lemma_serialize_len(v);
    lemma_flatten_len(v.y, alg.n());
    lemma_str_of_ustr(0, alg.type_code(), 0);
    alg.lemma_type_code();
    assert(s.subrange(0, 4) =~= spec_u32str(alg.type_code()));
    assert(s.subrange(4, (4 + alg.n()) as int) =~= v.c);
    assert(s.subrange((4 + alg.n()) as int, s.len() as int) =~= v.y.flatten());
    lemma_chunks_flatten(v.y, alg.n());
}

/// Whatever parses as a signature is the wire form of that signature, and
/// of no other.
pub proof fn lemma_serialize_parse(data: Seq<u8>)
    requires
        spec_parse_signature(data) is Some,
    ensures
        spec_parse_signature(data).unwrap().wf(),
        spec_parse_signature(data).unwrap().serialize() == data,
{
    let v = spec_parse_signature(data).unwrap();
    let alg = v.parameter;
    let code = spec_str32u(data.subrange(0, 4));
    let rest = data.subrange((4 + alg.n()) as int, data.len() as int);
    LmotsAlgorithm::lemma_from_u32(code);
    lemma_ustr_of_str(data.subrange(0, 4));
    alg.lemma_sizes();
    lemma_flatten_chunks(rest, alg.n(), alg.p());
    assert(rest.subrange(0, (alg.p() * alg.n()) as int) =~= rest);
    assert(data.subrange(0, 4) + data.subrange(4, (4 + alg.n()) as int) + rest =~= data);
}

/// What parses as a signature opens with the type code of its parameter
/// set and is as long as a signature of that set.
pub proof fn lemma_parse_len(data: Seq<u8>)
    requires
        spec_parse_signature(data) is Some,
    ensures
        data.len() >= 4,
        LmotsAlgorithm::spec_from_u32(spec_str32u(data.subrange(0, 4))) == Some(
            spec_parse_signature(data).unwrap().parameter,
        ),
        data.len() == spec_parse_signature(data).unwrap().parameter.signature_len(),
{
}

/// A signature cut short or run long no longer parses.
pub proof fn lemma_parse_rejects_other_lengths(v: LmotsSignatureView, data: Seq<u8>)
    requires
        v.wf(),
        data.is_prefix_of(v.serialize()) || v.serialize().is_prefix_of(data),
        data != v.serialize(),
    ensures
        spec_parse_signature(data) is None,
{
    let s = v.serialize();
    if spec_parse_signature(data) is Some {
        lemma_parse_serialize(v);
        lemma_parse_len(s);
        lemma_parse_len(data);
        assert(data.subrange(0, 4) =~= s.subrange(0, 4));
        assert(data =~= s);
    }
}

/// The signature of `message` under the secrets `key` with randomiser `c`.
pub open spec fn spec_sign(
    alg: LmotsAlgorithm,
    i: Seq<u8>,
    q: Seq<u8>,
    key: Seq<Seq<u8>>,
    c: Seq<u8>,
    message: Seq<u8>,
) -> LmotsSignatureView {
    LmotsSignatureView {
        parameter: alg,
        c,
        y: spec_sign_chains(alg, i, q, key, spec_digits(alg, i, q, c, message)),
    }
}

/// The public key that a signature of `message` at leaf `q` of tree `i`
/// would belong to.
pub open spec fn spec_public_key_candidate(
    i: Seq<u8>,
    q: Seq<u8>,
    signature: LmotsSignatureView,
    message: Seq<u8>,
) -> Seq<u8> {
    let alg = signature.parameter;
    spec_public_key_hash(
        alg,
        i,
        q,
        spec_recover_chains(alg, i, q, signature.y, spec_digits(alg, i, q, signature.c, message)),
    )
}

/// The secrets of one leaf's one-time key.
pub struct LmotsPrivateKey {
    pub parameter: LmotsAlgorithm,
    pub i: IType,
    pub q: QType,
    pub key: Vec<Vec<u8>>,
}

impl LmotsPrivateKey {
    /// There are `p` secrets of `n` bytes each.
    pub open spec fn wf(&self) -> bool {
        &&& self.secrets().len() == self.parameter.p()
        &&& uniform(self.secrets(), self.parameter.n())
    }

    /// The secrets, one row each.
    pub open spec fn secrets(&self) -> Seq<Seq<u8>> {
        spec_rows(self.key@)
    }

    /// The one-time key of leaf `q` of tree `i` with the secrets `key`.
    pub fn new(i: IType, q: QType, parameter: LmotsAlgorithm, key: Vec<Vec<u8>>) -> (r: Self)
        ensures
            r.parameter == parameter,
            r.i == i,
            r.q == q,
            r.key == key,
    {
        LmotsPrivateKey { parameter, i, q, key }
    }
}

/// The public key of one leaf's one-time key.
pub struct LmotsPublicKey {
    pub parameter: LmotsAlgorithm,
    pub i: IType,
    pub q: QType,
    pub key: Vec<u8>,
}

impl LmotsPublicKey {
    /// The one-time public key `key` of leaf `q` of tree `i`.
    pub fn new(i: IType, q: QType, parameter: LmotsAlgorithm, key: Vec<u8>) -> (r: Self)
        ensures
            r.parameter == parameter,
            r.i == i,
            r.q == q,
            r.key == key,
    {
        LmotsPublicKey { parameter, i, q, key }
    }
}

/// Walking a chain in two stages is walking it in one.
pub proof fn lemma_chain_compose(
    alg: LmotsAlgorithm,
    i: Seq<u8>,
    q: Seq<u8>,
    k: nat,
    from: nat,
    mid: nat,
    to: nat,
    x: Seq<u8>,
)
    requires
        from <= mid <= to,
    ensures
        spec_chain(alg, i, q, k, mid, to, spec_chain(alg, i, q, k, from, mid, x)) == spec_chain(
            alg,
            i,
            q,
            k,
            from,
            to,
            x,
        ),
    decreases to,
{
    if to > mid {
        lemma_chain_compose(alg, i, q, k, from, mid, (to - 1) as nat, x);
    }
}

/// A value that has been walked at least one step is `n` bytes long.
pub proof fn lemma_chain_len(
    alg: LmotsAlgorithm,
    i: Seq<u8>,
    q: Seq<u8>,
    k: nat,
    from: nat,
    to: nat,
    x: Seq<u8>,
)
    requires
        x.len() == alg.n(),
    ensures
        spec_chain(alg, i, q, k, from, to, x).len() == alg.n(),
{
    alg.lemma_sizes();
    crate::hasher::lemma_digest_len(alg.n(), Seq::empty());
    if to > from {
        let inner = spec_chain(alg, i, q, k, from, (to - 1) as nat, x);
        crate::hasher::lemma_digest_len(
            alg.n(),
            i + q + spec_u16str(k as u16) + spec_u8str(((to - 1) as nat) as u8) + inner,
        );
    }
}

/// The secrets derived from a seed are `p` rows of `n` bytes.
pub proof fn lemma_private_key_wf(alg: LmotsAlgorithm, i: Seq<u8>, q: Seq<u8>, seed: Seq<u8>)
    ensures
        spec_private_key(alg, i, q, seed).len() == alg.p(),
        uniform(spec_private_key(alg, i, q, seed), alg.n()),
{
    alg.lemma_sizes();
    let key = spec_private_key(alg, i, q, seed);
    assert forall|k: int| 0 <= k < key.len() implies (#[trigger] key[k]).len() == alg.n() by {
        crate::hasher::lemma_digest_len(alg.n(), i + q + spec_u16str(k as u16) + seq![0xffu8] + seed);
    }
}

/// A signature made with the secrets of a seed and a randomiser of `n`
/// bytes is well formed.
pub proof fn lemma_sign_wf(
    alg: LmotsAlgorithm,
    i: Seq<u8>,
    q: Seq<u8>,
    seed: Seq<u8>,
    c: Seq<u8>,
    message: Seq<u8>,
)
    requires
        c.len() == alg.n(),
    ensures
        spec_sign(alg, i, q, spec_private_key(alg, i, q, seed), c, message).wf(),
{
    let key = spec_private_key(alg, i, q, seed);
    let signature = spec_sign(alg, i, q, key, c, message);
    let digits = spec_digits(alg, i, q, c, message);
    lemma_private_key_wf(alg, i, q, seed);
    assert forall|k: int| 0 <= k < signature.y.len() implies (#[trigger] signature.y[k]).len()
        == alg.n() by {
        lemma_chain_len(alg, i, q, k as nat, 0, spec_coef(digits, k as nat, alg.w()) as nat, key[k]);
    }
}

/// The chain values of a signature lead to the chain ends of the key that
/// made it: whoever recovers a public key from a signature and the signed
/// message recovers the signer's.
pub proof fn lemma_sign_then_recover(
    alg: LmotsAlgorithm,
    i: Seq<u8>,
    q: Seq<u8>,
    key: Seq<Seq<u8>>,
    c: Seq<u8>,
    message: Seq<u8>,
)
    ensures
        spec_public_key_candidate(i, q, spec_sign(alg, i, q, key, c, message), message)
            == spec_public_key(alg, i, q, key),
{
    alg.lemma_sizes();
    let digits = spec_digits(alg, i, q, c, message);
    let y = spec_sign_chains(alg, i, q, key, digits);
    let recovered = spec_recover_chains(alg, i, q, y, digits);
    let ends = spec_chain_ends(alg, i, q, key);
    assert forall|k: int| 0 <= k < alg.p() implies recovered[k] == ends[k] by {
        let a = spec_coef(digits, k as nat, alg.w());
        lemma_coef_bound(digits, k as nat, alg.w());
        lemma_chain_compose(alg, i, q, k as nat, 0, a as nat, alg.max_digit(), key[k]);
    }
    assert(recovered =~= ends);
}

} // verus!
