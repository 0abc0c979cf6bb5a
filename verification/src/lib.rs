//! Stateful hash-based signatures: the Hierarchical Signature System (HSS)
//! over Leighton-Micali signatures (LMS) and their one-time component
//! (LM-OTS), with every executable function proved against a mathematical
//! model of the scheme.
//!
//! The layers, leaves first:
//!
//! - `hasher`: SHA-256, defined from its compression function and
//!   implemented against that definition;
//! - `util`: big-endian integers, `w`-bit digits, rows of bytes;
//! - `lm_ots`: one-time keys, signatures and their recovery;
//! - `lms`: the Merkle tree over the one-time keys of a seed;
//! - `hss`: the chain of trees, the persisted state of a key, the wire
//!   forms, and the theorems that hold of all of it.
//!
//! Every type that goes over the wire has a view, a value of plain
//! sequences and integers; `serialize` and the `spec_parse_` functions
//! say what its bytes are, and the contracts of the executable functions
//! are stated over these.

pub mod constants;
pub mod error;
pub mod hasher;
pub mod hss;
pub mod lm_ots;
pub mod lms;
pub mod util;
