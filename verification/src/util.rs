//! Byte-level helpers shared by every layer of the scheme.

pub mod chunks;
pub mod coef;
pub mod compare;
pub mod ustr;
