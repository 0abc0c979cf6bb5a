//! The one-time signature under every leaf: Winternitz hash chains.

pub mod binding;
pub mod definitions;
pub mod digits;
pub mod keygen;
pub mod parameter;
pub mod signing;
pub mod verify;
