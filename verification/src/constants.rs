//! Sizes and domain separators of the scheme.

use vstd::prelude::*;

verus! {

/// Output length of the underlying digest, in bytes.
pub const MAX_HASH: usize = 32;

/// Largest number of chained trees in one key.
pub const MAX_HSS_LEVELS: usize = 8;

/// Marker that fills the unused slots of a compressed parameter set.
pub const PARAM_SET_END: u8 = 0xff;

/// Domain separator of the hash that yields a one-time public key.
pub const D_PBLC: u16 = 0x8080;

/// Domain separator of the randomised message hash.
pub const D_MESG: u16 = 0x8181;

/// Domain separator of a leaf of the Merkle tree.
pub const D_LEAF: u16 = 0x8282;

/// Domain separator of an interior node of the Merkle tree.
pub const D_INTR: u16 = 0x8383;

/// Domain separator of the derivation of the top tree from the root seed.
pub const D_TOPSEED: u16 = 0xfefe;

/// Chain index under which the randomiser of an inner signature is derived.
pub const SEED_RANDOMIZER: u16 = 0xfffd;

/// Chain index under which a child tree's seed is derived.
pub const SEED_CHILD_SEED: u16 = 0xfffe;

/// Chain index under which a child tree's identifier is derived.
pub const SEED_CHILD_I: u16 = 0xffff;

} // verus!
