//! The parameter sets of a hierarchy, level by level, and their packed
//! form of one byte per level.

use vstd::prelude::*;
use vstd::arithmetic::power2::pow2;
use crate::lm_ots::parameter::LmotsAlgorithm;
use crate::lms::parameter::LmsAlgorithm;

verus! {

/// The parameter sets of one level: those of its one-time keys and those
/// of its tree.
pub type LevelParameter = (LmotsAlgorithm, LmsAlgorithm);

/// The sum of the tree heights of the levels.
pub open spec fn spec_total_height(parameters: Seq<LevelParameter>) -> nat
    decreases parameters.len(),
{
    if parameters.len() == 0 {
        0
    } else {
        spec_total_height(parameters.drop_last()) + parameters.last().1.h()
    }
}

/// The number of signatures that a hierarchy can make: the product of the
/// leaf counts of its levels, `2^(h_0 + ... + h_{L-1})`.
pub open spec fn spec_capacity(parameters: Seq<LevelParameter>) -> nat {
    pow2(spec_total_height(parameters))
}

/// Every level hashes to the same length `n`, in its one-time keys and in
/// its tree.
pub open spec fn same_output_length(parameters: Seq<LevelParameter>, n: nat) -> bool {
    forall|k: int|
        0 <= k < parameters.len() ==> (#[trigger] parameters[k]).0.n() == n && parameters[k].1.m() == n
}

/// Whether a key can be made with these levels: there are between one
/// and eight of them, every level hashes to the same length, and the
/// signature counter fits in 64 bits.
pub open spec fn valid_parameters(parameters: Seq<LevelParameter>) -> bool {
    &&& 1 <= parameters.len() <= 8
    &&& same_output_length(parameters, parameters[0].0.n())
    &&& spec_total_height(parameters) <= 63
}

/// The byte that packs one level: the tree's type code in the high four
/// bits, the one-time type code in the low four.
pub open spec fn spec_pack(level: LevelParameter) -> u8 {
    (level.1.type_code() * 16 + level.0.type_code()) as u8
}

/// The level that a byte packs, if both halves name registered sets.
pub open spec fn spec_unpack(b: u8) -> Option<LevelParameter> {
    match (LmotsAlgorithm::spec_from_u32((b % 16) as u32), LmsAlgorithm::spec_from_u32((b / 16) as u32)) {
        (Some(lmots), Some(lms)) => Some((lmots, lms)),
        _ => None,
    }
}

/// The eight bytes that pack the levels: one byte per level, then `0xff`
/// to the end.
pub open spec fn spec_encode(parameters: Seq<LevelParameter>) -> Seq<u8> {
    Seq::new(
        8,
        |k: int|
            if k < parameters.len() {
                spec_pack(parameters[k])
            } else {
                0xffu8
            },
    )
}

/// The index of the first `0xff` at or after `from`, or the length of
/// `bytes` where there is none.
pub open spec fn spec_first_end(bytes: Seq<u8>, from: nat) -> nat
    decreases bytes.len() - from,
{
    if from >= bytes.len() || bytes[from as int] == 0xff {
        from
    } else {
        spec_first_end(bytes, from + 1)
    }
}

/// The levels that eight bytes pack: every byte before the first `0xff`
/// names two registered sets, every byte from there on is `0xff`, and the
/// levels are fit to make a key.
pub open spec fn spec_decode(bytes: Seq<u8>) -> Option<Seq<LevelParameter>> {
    let count = spec_first_end(bytes, 0);
    let parameters = Seq::new(count, |k: int| spec_unpack(bytes[k]).unwrap());
    if bytes.len() == 8 && (forall|k: int| count <= k < 8 ==> bytes[k] == 0xff) && (forall|k: int|
        0 <= k < count ==> spec_unpack(#[trigger] bytes[k]) is Some) && valid_parameters(parameters) {
        Some(parameters)
    } else {
        None
    }
}

/// The byte that packs a level is the tree's type code shifted left by
/// four bits, or-ed with the one-time type code.
pub proof fn theorem_pack_is_shift_or(level: LevelParameter)
    ensures
        spec_pack(level) == ((level.1.type_code() as u8) << 4) | (level.0.type_code() as u8),
{
    let high = level.1.type_code() as u8;
    let low = level.0.type_code() as u8;
    assert(high < 16 && low < 16 ==> ((high * 16 + low) as u8 == (high << 4) | low)) by (bit_vector);
}

/// Unpacking a packed level gives the level back, and no level packs to
/// the filler byte.
pub proof fn lemma_unpack_pack(level: LevelParameter)
    ensures
        spec_unpack(spec_pack(level)) == Some(level),
        spec_pack(level) != 0xff,
{
    level.0.lemma_type_code();
    level.1.lemma_type_code();
}

/// A byte that unpacks to a level is what that level packs to.
pub proof fn lemma_pack_unpack(b: u8)
    requires
        spec_unpack(b) is Some,
    ensures
        spec_pack(spec_unpack(b).unwrap()) == b,
{
    LmotsAlgorithm::lemma_from_u32((b % 16) as u32);
    LmsAlgorithm::lemma_from_u32((b / 16) as u32);
}

/// In bytes that hold no `0xff` before `end` and either stop or hold one
/// at `end`, the first `0xff` at or after any `from <= end` is at `end`.
pub proof fn lemma_first_end(bytes: Seq<u8>, from: nat, end: nat)
    requires
        from <= end <= bytes.len(),
        forall|k: int| from <= k < end ==> bytes[k] != 0xff,
        end == bytes.len() || bytes[end as int] == 0xff,
    ensures
        spec_first_end(bytes, from) == end,
    decreases end - from,
{
    if from < end {
        lemma_first_end(bytes, from + 1, end);
    }
}

/// Decoding the packed form of valid levels gives the levels back.
pub proof fn lemma_decode_encode(parameters: Seq<LevelParameter>)
    requires
        valid_parameters(parameters),
    ensures
        spec_decode(spec_encode(parameters)) == Some(parameters),
{
    let bytes = spec_encode(parameters);
    assert forall|k: int| 0 <= k < parameters.len() implies bytes[k] != 0xff && spec_unpack(
        #[trigger] bytes[k],
    ) == Some(parameters[k]) by {
        lemma_unpack_pack(parameters[k]);
    }
    lemma_first_end(bytes, 0, parameters.len());
    let decoded = Seq::new(parameters.len(), |k: int| spec_unpack(bytes[k]).unwrap());
    assert(decoded =~= parameters);
}

/// Bytes that decode to levels are the packed form of those levels.
pub proof fn lemma_encode_decode(bytes: Seq<u8>)
    requires
        spec_decode(bytes) is Some,
    ensures
        valid_parameters(spec_decode(bytes).unwrap()),
        spec_encode(spec_decode(bytes).unwrap()) == bytes,
{
    let parameters = spec_decode(bytes).unwrap();
    assert forall|k: int| 0 <= k < 8 implies spec_encode(parameters)[k] == bytes[k] by {
        if k < parameters.len() {
            lemma_pack_unpack(bytes[k]);
        }
    }
    assert(spec_encode(parameters) =~= bytes);
}

/// The capacity of valid levels fits in 64 bits.
pub proof fn lemma_capacity_bound(parameters: Seq<LevelParameter>)
    requires
        spec_total_height(parameters) <= 63,
    ensures
        0 < spec_capacity(parameters) <= 0x8000_0000_0000_0000,
{
    vstd::arithmetic::power2::lemma2_to64();
    vstd::arithmetic::power2::lemma2_to64_rest();
    vstd::arithmetic::power2::lemma_pow2_pos(spec_total_height(parameters));
    if spec_total_height(parameters) < 63 {
        vstd::arithmetic::power2::lemma_pow2_strictly_increases(spec_total_height(parameters), 63);
    }
}

/// Reads the level that a byte packs.
pub fn unpack(b: u8) -> (r: Option<LevelParameter>)
    ensures
        r == spec_unpack(b),
{
    let lmots = LmotsAlgorithm::from_u32((b % 16) as u32);
    let lms = LmsAlgorithm::from_u32((b / 16) as u32);
    match (lmots, lms) {
        (Some(x), Some(y)) => Some((x, y)),
        _ => None,
    }
}

/// Packs a level into its byte.
pub fn pack(level: &LevelParameter) -> (r: u8)
    ensures
        r == spec_pack(*level),
{
    (level.1.get_type() * 16 + level.0.get_type()) as u8
}

/// Checks whether a key can be made with these levels.
pub fn check_parameters(parameters: &[LevelParameter]) -> (r: bool)
    ensures
        r == valid_parameters(parameters@),
{
    let count: usize = parameters.len();
    if count < 1 || count > 8 {
        return false;
    }
    let n: usize = parameters[0].0.get_n();
    let mut total: u32 = 0;
    let mut k: usize = 0;
    assert(parameters@.subrange(0, 0) =~= Seq::<LevelParameter>::empty());
    while k < count
        invariant
            k <= count <= 8,
            count == parameters@.len(),
            n == parameters@[0].0.n(),
            total == spec_total_height(parameters@.subrange(0, k as int)),
            total <= 25 * k,
            same_output_length(parameters@.subrange(0, k as int), n as nat),
        decreases count - k,
    {
        let level = &parameters[k];
        proof {
            level.1.lemma_sizes();
            assert(parameters@.subrange(0, k + 1).drop_last() =~= parameters@.subrange(0, k as int));
        }
        if level.0.get_n() != n || level.1.get_m() != n {
            return false;
        }
        total = total + level.1.get_h() as u32;
        k += 1;
    }
    assert(parameters@.subrange(0, count as int) =~= parameters@);
    total <= 63
}

} // verus!
