//! The Merkle tree that binds many one-time keys under one root.

pub mod binding;
pub mod definitions;
pub mod keygen;
pub mod parameter;
pub mod signing;
pub mod verify;
