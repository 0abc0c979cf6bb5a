//! The persisted state of a key: the signature counter, the packed
//! parameter sets and the root seed.

use vstd::prelude::*;
use vstd::slice::{slice_subrange, slice_to_vec};
use crate::constants::{D_TOPSEED, MAX_HSS_LEVELS, PARAM_SET_END, SEED_CHILD_SEED};
use crate::hasher::{lemma_digest_len, Sha256Hasher};
use crate::hss::parameter::{
    check_parameters, lemma_decode_encode, lemma_encode_decode, lemma_first_end, pack, spec_decode,
    spec_encode, spec_first_end, spec_pack, spec_unpack, unpack, valid_parameters, LevelParameter,
};
use crate::hss::seed_derive::{
    spec_child_i,
    spec_child_seed,
    spec_top_i,
    spec_top_seed,
    spec_topseed_preimage,
    SeedDerive,
};
use crate::lm_ots::definitions::IType;
use crate::lm_ots::parameter::LmotsAlgorithm;
use crate::lms::parameter::LmsAlgorithm;
use crate::util::ustr::{
    lemma_str_of_ustr, lemma_ustr_of_str, spec_str64u, spec_u16str, spec_u64str, str64u, u16str, u64str,
};

verus! {

/// The seed and the identifier of one tree.
pub struct SeedAndI {
    pub seed: Vec<u8>,
    pub i: IType,
}

impl SeedAndI {
    /// Copies a seed and the first sixteen bytes of an identifier.
    pub fn new(seed: &[u8], i: &[u8]) -> (r: Self)
        requires
            i@.len() >= 16,
        ensures
            r.seed@ == seed@,
            r.i@ == i@.subrange(0, 16),
    {
        let mut local_i: IType = [0u8; 16];
        let mut k: usize = 0;
        while k < 16
            invariant
                k <= 16,
                i@.len() >= 16,
                forall|j: int| 0 <= j < k ==> local_i@[j] == i@[j],
            decreases 16 - k,
        {
            local_i[k] = i[k];
            k += 1;
        }
        assert(local_i@ =~= i@.subrange(0, 16));
        SeedAndI { seed: slice_to_vec(seed), i: local_i }
    }
}

/// The parameter sets of a hierarchy, packed into eight bytes.
pub struct CompressedParameterSet(pub [u8; 8]);

impl View for CompressedParameterSet {
    type V = Seq<u8>;

    /// The eight bytes.
    open spec fn view(&self) -> Seq<u8> {
        self.0@
    }
}

impl CompressedParameterSet {
    /// The bytes pack levels that are fit to make a key.
    pub open spec fn wf(&self) -> bool {
        spec_decode(self@) is Some
    }

    /// The levels that the bytes pack.
    pub open spec fn parameters(&self) -> Seq<LevelParameter> {
        spec_decode(self@).unwrap()
    }

    /// Takes eight packed bytes. `None` where `data` is not eight bytes
    /// long, a byte before the first `0xff` does not name two registered
    /// sets, a byte after it is not `0xff`, or the levels named are not
    /// fit to make a key.
    pub fn from_slice(data: &[u8]) -> (r: Option<Self>)
        ensures
            r is Some <==> spec_decode(data@) is Some,
            r matches Some(set) ==> set@ == data@ && set.wf(),
    {
        if data.len() != MAX_HSS_LEVELS {
            return None;
        }
        let mut bytes: [u8; 8] = [PARAM_SET_END; 8];
        let mut levels: Vec<LevelParameter> = Vec::new();
        let mut k: usize = 0;
        while k < 8 && data[k] != PARAM_SET_END
            invariant
                k <= 8,
                data@.len() == 8,
                levels@.len() == k,
                forall|j: int| 0 <= j < k ==> data@[j] != 0xff,
                forall|j: int| 0 <= j < k ==> spec_unpack(#[trigger] data@[j]) == Some(levels@[j]),
                forall|j: int| 0 <= j < k ==> bytes@[j] == data@[j],
                forall|j: int| k <= j < 8 ==> bytes@[j] == 0xff,
            decreases 8 - k,
        {
            match unpack(data[k]) {
                None => {
                    proof {
                        lemma_first_end_from(data@, k as nat);
                        lemma_first_end_bounds(data@, (k + 1) as nat);
                    }
                    return None;
                },
                Some(level) => {
                    levels.push(level);
                },
            }
            bytes[k] = data[k];
            k += 1;
        }
        proof {
            lemma_first_end(data@, 0, k as nat);
        }
        let count: usize = k;
        while k < 8
            invariant
                count <= k <= 8,
                data@.len() == 8,
                count == spec_first_end(data@, 0),
                forall|j: int| count <= j < k ==> data@[j] == 0xff,
            decreases 8 - k,
        {
            if data[k] != PARAM_SET_END {
                return None;
            }
            k += 1;
        }
        assert(levels@ =~= Seq::new(count as nat, |j: int| spec_unpack(data@[j]).unwrap()));
        if !check_parameters(levels.as_slice()) {
            return None;
        }
        assert(bytes@ =~= data@);
        Some(CompressedParameterSet(bytes))
    }

    /// Packs the levels of a hierarchy. `None` where no key can be made
    /// with them: there are none or more than eight, they do not all hash
    /// to the same length, or their heights add up to more than 63.
    pub fn from(parameters: &[LevelParameter]) -> (r: Option<Self>)
        ensures
            r is Some <==> valid_parameters(parameters@),
            r matches Some(set) ==> set@ == spec_encode(parameters@) && set.wf() && set.parameters()
                == parameters@,
    {
        if !check_parameters(parameters) {
            return None;
        }
        let mut result: [u8; 8] = [PARAM_SET_END; 8];
        let count: usize = parameters.len();
        let mut k: usize = 0;
        while k < count
            invariant
                k <= count <= 8,
                count == parameters@.len(),
                forall|j: int| 0 <= j < k ==> result@[j] == spec_pack(parameters@[j]),
                forall|j: int| k <= j < 8 ==> result@[j] == 0xff,
            decreases count - k,
        {
            result[k] = pack(&parameters[k]);
            k += 1;
        }
        proof {
            assert(result@ =~= spec_encode(parameters@));
            lemma_decode_encode(parameters@);
        }
        Some(CompressedParameterSet(result))
    }

    /// The levels that the bytes pack, top level first.
    pub fn to(&self) -> (r: Vec<LevelParameter>)
        requires
            self.wf(),
        ensures
            r@ == self.parameters(),
    {
        let mut result: Vec<LevelParameter> = Vec::new();
        let mut level: usize = 0;
        let mut done: bool = false;
        assert(self.parameters().subrange(0, 0) =~= Seq::<LevelParameter>::empty());
        while level < MAX_HSS_LEVELS && !done
            invariant
                level <= 8,
                self.wf(),
                level <= self.parameters().len() <= 8,
                done ==> level == self.parameters().len(),
                result@ == self.parameters().subrange(0, level as int),
            decreases 8 - level + (if done { 0int } else { 1int }),
        {
            let parameter: u8 = self.0[level];
            if parameter == PARAM_SET_END {
                proof {
                    if level < self.parameters().len() {
                        lemma_no_end_in_levels(self@, level as int);
                    }
                }
                done = true;
            } else {
                match unpack(parameter) {
                    None => {
                        done = true;
                    },
                    Some(pair) => {
                        result.push(pair);
                        level += 1;
                        assert(result@ =~= self.parameters().subrange(0, level as int));
                    },
                }
            }
        }
        assert(self.parameters().subrange(0, self.parameters().len() as int) =~= self.parameters());
        result
    }
}

/// The persisted state of a key, as values.
pub struct RfcPrivateKeyView {
    pub q: u64,
    pub parameters: Seq<LevelParameter>,
    pub seed: Seq<u8>,
}

impl RfcPrivateKeyView {
    /// The output length `n` that every level of the key hashes to.
    pub open spec fn n(self) -> nat {
        self.parameters[0].0.n()
    }

    /// The levels are fit to make a key, and the seed is `n` bytes long.
    pub open spec fn wf(self) -> bool {
        &&& valid_parameters(self.parameters)
        &&& self.seed.len() == self.n()
    }

    /// The bytes of the state on disk: the counter in eight bytes, the
    /// eight bytes of the packed levels, and the seed.
    pub open spec fn serialize(self) -> Seq<u8> {
        spec_u64str(self.q) + spec_encode(self.parameters) + self.seed
    }
}

/// The state that `data` encodes: its packed levels decode, and it is
/// exactly as long as a state with a seed for those levels.
pub open spec fn spec_parse_private_key(data: Seq<u8>) -> Option<RfcPrivateKeyView> {
    if data.len() < 16 {
        None
    } else {
        match spec_decode(data.subrange(8, 16)) {
            None => None,
            Some(parameters) => if data.len() != 16 + parameters[0].0.n() {
                None
            } else {
                Some(
                    RfcPrivateKeyView {
                        q: spec_str64u(data.subrange(0, 8)),
                        parameters,
                        seed: data.subrange(16, data.len() as int),
                    },
                )
            },
        }
    }
}

/// Parsing the bytes of a state gives the state back.
pub proof fn lemma_parse_serialize_private_key(v: RfcPrivateKeyView)
    requires
        v.wf(),
    ensures
        spec_parse_private_key(v.serialize()) == Some(v),
{
    let s = v.serialize();
    lemma_str_of_ustr(0, 0, v.q);
    lemma_decode_encode(v.parameters);
    assert(s.subrange(0, 8) =~= spec_u64str(v.q));
    assert(s.subrange(8, 16) =~= spec_encode(v.parameters));
    assert(s.subrange(16, s.len() as int) =~= v.seed);
}

/// Whatever parses as a state is the bytes of that state, and of no
/// other.
pub proof fn lemma_serialize_parse_private_key(data: Seq<u8>)
    requires
        spec_parse_private_key(data) is Some,
    ensures
        spec_parse_private_key(data).unwrap().wf(),
        spec_parse_private_key(data).unwrap().serialize() == data,
{
    lemma_ustr_of_str(data.subrange(0, 8));
    lemma_encode_decode(data.subrange(8, 16));
    assert(data.subrange(0, 8) + data.subrange(8, 16) + data.subrange(16, data.len() as int)
        =~= data);
}

/// A state cut short or run long no longer parses.
pub proof fn lemma_parse_private_key_rejects_other_lengths(v: RfcPrivateKeyView, data: Seq<u8>)
    requires
        v.wf(),
        data.is_prefix_of(v.serialize()) || v.serialize().is_prefix_of(data),
        data != v.serialize(),
    ensures
        spec_parse_private_key(data) is None,
{
    let s = v.serialize();
    lemma_parse_serialize_private_key(v);
    if data.len() >= 16 {
        assert(data.subrange(8, 16) =~= s.subrange(8, 16));
        if data.len() == s.len() {
            assert(data =~= s);
        }
    }
}

/// The persisted state of a key: how many signatures it has made, the
/// parameter sets of its levels, and the seed that every secret of the
/// key is derived from.
pub struct RfcPrivateKey {
    pub q: u64,
    pub compressed_parameter: CompressedParameterSet,
    pub seed: Vec<u8>,
}

impl View for RfcPrivateKey {
    type V = RfcPrivateKeyView;

    open spec fn view(&self) -> RfcPrivateKeyView {
        RfcPrivateKeyView { q: self.q, parameters: self.compressed_parameter.parameters(), seed: self.seed@ }
    }
}

impl RfcPrivateKey {
    /// The packed levels decode, and the seed is `n` bytes long.
    pub open spec fn wf(&self) -> bool {
        &&& self.compressed_parameter.wf()
        &&& self.seed@.len() == self@.n()
    }

    /// A fresh state for the given levels and seed, with no signature
    /// made. `None` where no key can be made with the levels, or the seed
    /// is not as long as their digests.
    pub fn generate(parameters: &[LevelParameter], seed: &[u8]) -> (r: Option<Self>)
        ensures
            r is Some <==> valid_parameters(parameters@) && seed@.len() == parameters@[0].0.n(),
            r matches Some(key) ==> key.wf() && key@ == (RfcPrivateKeyView {
                q: 0,
                parameters: parameters@,
                seed: seed@,
            }),
    {
        let compressed_parameter = match CompressedParameterSet::from(parameters) {
            None => {
                return None;
            },
            Some(x) => x,
        };
        if seed.len() != parameters[0].0.get_n() {
            return None;
        }
        Some(RfcPrivateKey { q: 0, compressed_parameter, seed: slice_to_vec(seed) })
    }

    /// The output length `n` of the key's levels.
    pub fn get_n(&self) -> (r: usize)
        requires
            self.wf(),
        ensures
            r == self@.n(),
    {
        proof {
            lemma_encode_decode(self.compressed_parameter@);
            lemma_first_end_bounds(self.compressed_parameter@, 0);
        }
        match unpack(self.compressed_parameter.0[0]) {
            Some(level) => level.0.get_n(),
            None => 0,
        }
    }

    /// The bytes of the state on disk.
    pub fn to_binary_representation(&self) -> (r: Vec<u8>)
        ensures
            r@ == spec_u64str(self.q) + self.compressed_parameter@ + self.seed@,
            self.wf() ==> r@ == self@.serialize(),
    {
        let mut result: Vec<u8> = Vec::new();
        result.extend_from_slice(&u64str(self.q));
        result.extend_from_slice(&self.compressed_parameter.0);
        result.extend_from_slice(self.seed.as_slice());
        proof {
            assert(result@ =~= spec_u64str(self.q) + self.compressed_parameter@ + self.seed@);
            if self.wf() {
                lemma_encode_decode(self.compressed_parameter@);
            }
        }
        result
    }

    /// Reads a state from its bytes. `None` where the packed levels do
    /// not decode or `data` is not exactly as long as a state with a seed
    /// for those levels.
    pub fn from_binary_representation(data: &[u8]) -> (r: Option<Self>)
        ensures
            match r {
                Some(key) => spec_parse_private_key(data@) == Some(key@) && key.wf(),
                None => spec_parse_private_key(data@) is None,
            },
    {
        if data.len() < 16 {
            return None;
        }
        let q: u64 = str64u(slice_subrange(data, 0, 8));
        let compressed_parameter = match CompressedParameterSet::from_slice(slice_subrange(data, 8, 16)) {
            None => {
                return None;
            },
            Some(x) => x,
        };
        let key = RfcPrivateKey {
            q,
            compressed_parameter,
            seed: slice_to_vec(slice_subrange(data, 16, data.len())),
        };
        proof {
            lemma_encode_decode(key.compressed_parameter@);
            lemma_first_end_bounds(key.compressed_parameter@, 0);
        }
        let n: usize = match unpack(key.compressed_parameter.0[0]) {
            Some(level) => level.0.get_n(),
            None => 0,
        };
        if data.len() != 16 + n {
            return None;
        }
        Some(key)
    }

    /// The seed and the identifier of the top tree, derived from the root
    /// seed in two steps.
    #[allow(non_snake_case)]
    pub fn generate_root_seed_I_value(&self) -> (r: SeedAndI)
        requires
            self.wf(),
        ensures
            r.seed@ == spec_top_seed(self@.n(), self.seed@),
            r.i@ == spec_top_i(self@.n(), self.seed@),
    {
        let n: usize = self.get_n();
        let zeros: [u8; 20] = [0u8; 20];
        let separator: [u8; 2] = u16str(D_TOPSEED);
        assert(zeros@ =~= Seq::new(20, |k: int| 0u8));
        let mut hasher = Sha256Hasher::new(n);

        let which: [u8; 1] = [0x00];
        hasher.update(&zeros);
        hasher.update(&separator);
        hasher.update(&which);
        hasher.update(self.seed.as_slice());
        assert(hasher@ =~= spec_topseed_preimage(0, self.seed@));
        let intermediate = hasher.finalize_reset();

        let which: [u8; 1] = [0x01];
        hasher.update(&zeros);
        hasher.update(&separator);
        hasher.update(&which);
        hasher.update(intermediate.as_slice());
        assert(hasher@ =~= spec_topseed_preimage(1, intermediate@));
        let seed = hasher.finalize_reset();

        let which: [u8; 1] = [0x02];
        hasher.update(&zeros);
        hasher.update(&separator);
        hasher.update(&which);
        hasher.update(intermediate.as_slice());
        assert(hasher@ =~= spec_topseed_preimage(2, intermediate@));
        let i = hasher.finalize_reset();
        proof {
            let level = self@.parameters[0];
            level.0.lemma_sizes();
            lemma_encode_decode(self.compressed_parameter@);
            lemma_digest_len(self@.n(), spec_topseed_preimage(2, intermediate@));
        }
        SeedAndI::new(seed.as_slice(), i.as_slice())
    }
}

/// The seed and the identifier of the tree that leaf `index` of the tree
/// `(parent_i, parent_seed)` signs, at the output length of
/// `lmots_parameter`.
#[allow(non_snake_case)]
pub fn generate_child_seed_I_value(
    parent_seed: &[u8],
    parent_i: &IType,
    index: u32,
    lmots_parameter: LmotsAlgorithm,
    lms_parameter: LmsAlgorithm,
) -> (r: SeedAndI)
    ensures
        r.seed@ == spec_child_seed(lmots_parameter.n(), parent_i@, index, parent_seed@),
        r.i@ == spec_child_i(lmots_parameter.n(), parent_i@, index, parent_seed@),
{
    let mut derive = SeedDerive::new(lmots_parameter.get_n(), parent_seed, parent_i);
    derive.set_q(index);
    derive.set_j(SEED_CHILD_SEED);
    let seed = derive.seed_derive(true);
    let i = derive.seed_derive(false);
    proof {
        lmots_parameter.lemma_sizes();
        lemma_digest_len(
            lmots_parameter.n(),
            parent_i@ + crate::util::ustr::spec_u32str(index) + spec_u16str(crate::constants::SEED_CHILD_I)
                + seq![0xffu8] + parent_seed@,
        );
    }
    SeedAndI::new(seed.as_slice(), i.as_slice())
}

/// No byte before the first `0xff` is `0xff`.
pub proof fn lemma_no_end_in_levels(bytes: Seq<u8>, k: int)
    requires
        spec_decode(bytes) is Some,
        0 <= k < spec_decode(bytes).unwrap().len(),
    ensures
        bytes[k] != 0xff,
{
    lemma_encode_decode(bytes);
    crate::hss::parameter::lemma_unpack_pack(spec_decode(bytes).unwrap()[k]);
}

/// The first `0xff` at or after `from` is at or after `from`, and within
/// the bytes.
pub proof fn lemma_first_end_bounds(bytes: Seq<u8>, from: nat)
    requires
        from <= bytes.len(),
    ensures
        from <= spec_first_end(bytes, from) <= bytes.len(),
    decreases bytes.len() - from,
{
    if from < bytes.len() && bytes[from as int] != 0xff {
        lemma_first_end_bounds(bytes, from + 1);
    }
}

/// The first `0xff` at or after `from` is where the first `0xff` of all
/// is, if no byte before `from` is `0xff`.
pub proof fn lemma_first_end_from(bytes: Seq<u8>, from: nat)
    requires
        from <= bytes.len(),
        forall|j: int| 0 <= j < from ==> bytes[j] != 0xff,
    ensures
        spec_first_end(bytes, 0) == spec_first_end(bytes, from),
    decreases from,
{
    if from > 0 {
        lemma_first_end_from(bytes, (from - 1) as nat);
    }
}

} // verus!
