//! Value transforms that sit in front of a fixed-width integer bit packer.
//!
//! Four formats are offered: `vanilla` (no transform), `m1` (every value
//! lowered by one), `d1` (sorted delta coding, done by the packer itself) and
//! `d1z` (delta coding followed by zigzag coding).
pub mod convert;
pub mod ops;
pub mod packer;

pub use crate::convert::{
    d1z_to_vanilla, d1z_to_vanilla_self, m1_to_vanilla, m1_to_vanilla_self, vanilla_to_d1z,
    vanilla_to_d1z_self, vanilla_to_m1, vanilla_to_m1_self, CodecError,
};
pub use crate::ops::BitPackOps;
pub use crate::packer::BlockPacker;
