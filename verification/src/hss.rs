//! The hierarchy: a chain of trees, each signing the root of the next,
//! under one public key.

pub mod binding;
pub mod definitions;
pub mod interface;
pub mod parameter;
pub mod rfc_private_key;
pub mod seed_derive;
pub mod signing;
pub mod theorems;
pub mod verify;
pub mod wire;
