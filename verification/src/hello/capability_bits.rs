//! Bit assignments of the capability mask.

use vstd::prelude::*;

verus! {

pub const TDPA_SUPPORT: u64 = 1;

pub const FLEXFEC_SUPPORT: u64 = 2;

pub const ROS2_BRIDGE: u64 = 4;

pub const CONNECTION_MIGRATION: u64 = 8;

} // verus!
