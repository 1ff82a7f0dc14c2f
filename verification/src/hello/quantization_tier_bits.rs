//! Bit assignments of the quantization-tier set.

use vstd::prelude::*;

verus! {

pub const FULL: u8 = 1;

pub const STANDARD: u8 = 2;

pub const COMPACT: u8 = 4;

} // verus!
